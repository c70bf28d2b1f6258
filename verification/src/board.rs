use vstd::prelude::*;
use crate::cell::{Cell, spec_val, spec_fall_offset};
use crate::chain::Chain;

verus! {

/// Rows of the board.
pub const NUM_ROWS: usize = 12;
/// Columns of the board.
pub const NUM_COLS: usize = 6;
/// Squares of the board.
pub const NUM_CELLS: usize = 72;
/// The first id handed to a garbage block; match indices stay below it.
pub const START_GARBAGE_ID: u32 = 1000;
/// Sprite of the first captcha direction; the four directions follow it.
pub const CAPTCHA_SPRITE_BASE: u32 = 100;

/// A direction the player answers a captcha with.
#[derive(PartialEq, Eq, Structural)]
pub enum CaptchaInput {
    LEFT,
    RIGHT,
    UP,
    DOWN,
}

/// The sprite of a captcha that asks for `input`.
pub open spec fn spec_captcha_sprite(input: CaptchaInput) -> u32 {
    match input {
        CaptchaInput::LEFT => 100,
        CaptchaInput::RIGHT => 101,
        CaptchaInput::UP => 102,
        CaptchaInput::DOWN => 103,
    }
}

// A captcha sprite equals the direction that it asks for.
impl PartialEq<CaptchaInput> for u32 {
    fn eq(&self, rhs: &CaptchaInput) -> (r: bool) {
        match rhs {
            CaptchaInput::LEFT => *self == 100,
            CaptchaInput::RIGHT => *self == 101,
            CaptchaInput::UP => *self == 102,
            CaptchaInput::DOWN => *self == 103,
        }
    }
}

impl vstd::std_specs::cmp::PartialEqSpecImpl<CaptchaInput> for u32 {
    open spec fn obeys_eq_spec() -> bool {
        true
    }

    open spec fn eq_spec(&self, rhs: &CaptchaInput) -> bool {
        *self == spec_captcha_sprite(*rhs)
    }
}

/// The row of storage that holds logical row `y` when the bottom row is
/// stored at `bottom`.
pub open spec fn phys_row(bottom: int, y: int) -> int {
    (bottom + y) % (NUM_ROWS as int)
}

/// The storage index of the square in column `x` of logical row `y`.
pub open spec fn phys_index(bottom: int, x: int, y: int) -> int {
    phys_row(bottom, y) * (NUM_COLS as int) + x
}

/// The square at column `x` of logical row `y` of the squares `cells`.
pub open spec fn cell_in(cells: Seq<Cell>, bottom: int, x: int, y: int) -> Cell {
    cells[phys_index(bottom, x, y)]
}

/// The cell below column `x` of logical row `y` lets a block at `(x, y)`
/// fall: the bottom row rests on the floor; an empty cell below is room to
/// fall into; a coloured or garbage block below that is itself falling is
/// too, unless it stands on the floor.
pub open spec fn below_empty_in(cells: Seq<Cell>, bottom: int, x: int, y: int) -> bool {
    if y == 0 {
        false
    } else {
        match cell_in(cells, bottom, x, y - 1) {
            Cell::Empty => true,
            Cell::Single(_, d) => y != 1 && d is Some,
            Cell::Garbage(_, d) => y != 1 && d is Some,
            _ => false,
        }
    }
}

/// What a captcha answer `input` leaves of the squares `cells` with the
/// cursor at `(x, y)`, where `values` are the colours of the blocks that a
/// solved captcha turns into. The left captcha square is answered first;
/// once it is, a right answer to the right square turns both into resting
/// blocks.
pub open spec fn captcha_answered_in(
    cells: Seq<Cell>,
    bottom: int,
    x: int,
    y: int,
    input: CaptchaInput,
    values: (u32, u32),
) -> Seq<Cell> {
    let i1 = phys_index(bottom, x, y);
    let i2 = phys_index(bottom, x + 1, y);
    match cell_in(cells, bottom, x, y) {
        Cell::Captcha(id, v, o, m) => if !m {
            if v == spec_captcha_sprite(input) {
                cells.update(i1, Cell::Captcha(id, v, o, true))
            } else {
                cells
            }
        } else {
            match cell_in(cells, bottom, x + 1, y) {
                Cell::Captcha(_, v2, _, m2) => if !m2 && v2 == spec_captcha_sprite(input) {
                    cells.update(i1, Cell::Single(values.0, None)).update(
                        i2,
                        Cell::Single(values.1, None),
                    )
                } else {
                    cells
                },
                _ => cells,
            }
        },
        _ => cells,
    }
}

/// What a swap of the squares at `(x0, y0)` and `(x1, y1)` leaves of the
/// squares `cells` and the swap marks `touched`: nothing changes where the
/// swap is refused; otherwise the squares are exchanged, and a swap by the
/// player marks both.
pub open spec fn swap_in(
    cells: Seq<Cell>,
    touched: Seq<bool>,
    bottom: int,
    x0: int,
    y0: int,
    x1: int,
    y1: int,
    user: bool,
) -> (Seq<Cell>, Seq<bool>) {
    let i0 = phys_index(bottom, x0, y0);
    let i1 = phys_index(bottom, x1, y1);
    if Board::swap_refused(cells[i0], cells[i1], user) {
        (cells, touched)
    } else {
        (
            Board::swapped(cells, i0, i1),
            if user {
                touched.update(i0, true).update(i1, true)
            } else {
                touched
            },
        )
    }
}

/// The storage index of the square visited at step `s` of a scan of the
/// board column by column, each column from the bottom row up.
pub open spec fn scan_index(bottom: int, s: int) -> int {
    phys_index(bottom, s / (NUM_ROWS as int), s % (NUM_ROWS as int))
}

/// The step of the column-by-column scan that visits storage index `i`.
pub open spec fn scan_step_of(bottom: int, i: int) -> int {
    (i % (NUM_COLS as int)) * (NUM_ROWS as int) + (i / (NUM_COLS as int) - bottom) % (
    NUM_ROWS as int)
}

/// The column-by-column scan visits every stored square exactly once.
#[verifier::spinoff_prover]
#[verifier::rlimit(40)]
pub proof fn lemma_scan_bijective(bottom: int)
    requires
        0 <= bottom < NUM_ROWS,
    ensures
        forall|s: int|
            0 <= s < NUM_CELLS ==> 0 <= #[trigger] scan_index(bottom, s) < NUM_CELLS
                && scan_step_of(bottom, scan_index(bottom, s)) == s,
        forall|i: int|
            0 <= i < NUM_CELLS ==> 0 <= #[trigger] scan_step_of(bottom, i) < NUM_CELLS
                && scan_index(bottom, scan_step_of(bottom, i)) == i,
{
    assert forall|s: int| 0 <= s < NUM_CELLS implies 0 <= #[trigger] scan_index(bottom, s)
        < NUM_CELLS && scan_step_of(bottom, scan_index(bottom, s)) == s by {
        let x = s / 12;
        let y = s % 12;
        let r = (bottom + y) % 12;
        assert(0 <= x < 6);
        assert(0 <= r < 12);
        let i = r * 6 + x;
        assert(i % 6 == x);
        assert(i / 6 == r);
        assert((r - bottom) % 12 == y);
    }
    assert forall|i: int| 0 <= i < NUM_CELLS implies 0 <= #[trigger] scan_step_of(bottom, i)
        < NUM_CELLS && scan_index(bottom, scan_step_of(bottom, i)) == i by {
        let x = i % 6;
        let r = i / 6;
        let y = (r - bottom) % 12;
        let s = x * 12 + y;
        assert(0 <= r < 12);
        assert(s / 12 == x);
        assert(s % 12 == y);
        assert((bottom + y) % 12 == r);
    }
}

/// Two different steps of the scan visit different squares.
pub proof fn lemma_scan_injective(bottom: int, s: int, t: int)
    requires
        0 <= bottom < NUM_ROWS,
        0 <= s < NUM_CELLS,
        0 <= t < NUM_CELLS,
        s != t,
    ensures
        scan_index(bottom, s) != scan_index(bottom, t),
        0 <= scan_index(bottom, s) < NUM_CELLS,
{
    lemma_scan_bijective(bottom);
    assert(scan_step_of(bottom, scan_index(bottom, s)) == s);
    assert(scan_step_of(bottom, scan_index(bottom, t)) == t);
}

/// The board: a ring of rows whose bottom row moves backwards through the
/// storage as the board scrolls up, the player's cursor, and the running
/// chain.
pub struct Board {
    /// Scroll towards the next row, between 0 and one row, in
    /// sixteen-millionths of a row (`SCROLL_UNIT` makes a row).
    pub delta: u64,
    /// The squares in storage order, row by row.
    pub cells: Vec<Cell>,
    /// Squares that the player swapped in this frame, in storage order.
    pub just_touched: Vec<bool>,
    /// The running chain.
    pub chain: Chain,
    /// Whether something moved or died in this frame, so that a new match
    /// continues the chain.
    pub chains_valid: bool,
    /// The id that the next garbage block gets.
    pub next_garbage_id: u32,
    /// Cursor row (the cursor covers two squares side by side).
    pub user_row: usize,
    /// Cursor column of the left square of the cursor.
    pub user_col: usize,
    /// The storage row of the bottom row; it moves backwards through the
    /// storage as the board scrolls up.
    pub bottom: usize,
}

impl Board {
    /// The board is well formed: every square is stored, and the bottom row
    /// is a row of the storage.
    pub open spec fn wf(self) -> bool {
        &&& self.cells@.len() == NUM_CELLS
        &&& self.just_touched@.len() == NUM_CELLS
        &&& 0 <= self.bottom < NUM_ROWS
    }

    /// The square at column `x` of logical row `y` (row 0 is the bottom).
    pub open spec fn cell(self, x: int, y: int) -> Cell {
        self.cells@[phys_index(self.bottom as int, x, y)]
    }

    /// Column `x` of logical row `y` names a stored square.
    pub open spec fn valid_pos(self, x: int, y: int) -> bool {
        0 <= x && 0 <= y && 0 <= phys_index(self.bottom as int, x, y) < NUM_CELLS
    }

    /// Everything but the squares is the same in `self` and `other`.
    pub open spec fn same_but_cells(self, other: Board) -> bool {
        &&& self.delta == other.delta
        &&& self.just_touched@ == other.just_touched@
        &&& self.chain == other.chain
        &&& self.chains_valid == other.chains_valid
        &&& self.next_garbage_id == other.next_garbage_id
        &&& self.user_row == other.user_row
        &&& self.user_col == other.user_col
        &&& self.bottom == other.bottom
    }

    /// Everything but the squares and the chain flag is the same in `self`
    /// and `other`.
    pub open spec fn same_but_cells_and_flag(self, other: Board) -> bool {
        &&& self.delta == other.delta
        &&& self.just_touched@ == other.just_touched@
        &&& self.chain == other.chain
        &&& self.next_garbage_id == other.next_garbage_id
        &&& self.user_row == other.user_row
        &&& self.user_col == other.user_col
        &&& self.bottom == other.bottom
    }

    /// Everything but the squares, the chain flag and the next garbage id is
    /// the same in `self` and `other`.
    pub open spec fn same_but_cells_and_flag_and_id(self, other: Board) -> bool {
        &&& self.delta == other.delta
        &&& self.just_touched@ == other.just_touched@
        &&& self.chain == other.chain
        &&& self.chains_valid == other.chains_valid
        &&& self.user_row == other.user_row
        &&& self.user_col == other.user_col
        &&& self.bottom == other.bottom
    }

    /// `self` is a new board: no blocks, no swaps, no scroll, the cursor at
    /// column 2 of the bottom row, no chain, and garbage ids starting afresh.
    pub open spec fn is_fresh(self) -> bool {
        &&& self.wf()
        &&& self.delta == 0
        &&& forall|i: int| 0 <= i < NUM_CELLS ==> self.cells@[i] == Cell::Empty
        &&& forall|i: int| 0 <= i < NUM_CELLS ==> !self.just_touched@[i]
        &&& self.chain.spec_value() == None::<u32>
        &&& self.chain.spec_countdown() == 0
        &&& !self.chains_valid
        &&& self.next_garbage_id == START_GARBAGE_ID
        &&& self.user_row == 0
        &&& self.user_col == 2
        &&& self.bottom == 0
    }

    /// An empty board: no blocks, the cursor at column 2 of the bottom row,
    /// no chain.
    pub fn new() -> (b: Board)
        ensures
            b.is_fresh(),
    {
        let mut cells: Vec<Cell> = Vec::new();
        let mut just_touched: Vec<bool> = Vec::new();
        let mut i: usize = 0;
        while i < NUM_CELLS
            invariant
                i <= NUM_CELLS,
                cells@.len() == i,
                just_touched@.len() == i,
                forall|j: int| 0 <= j < i ==> cells@[j] == Cell::Empty,
                forall|j: int| 0 <= j < i ==> !just_touched@[j],
            decreases NUM_CELLS - i,
        {
            cells.push(Cell::new());
            just_touched.push(false);
            i = i + 1;
        }
        Board {
            delta: 0,
            cells,
            just_touched,
            chain: Default::default(),
            chains_valid: false,
            next_garbage_id: START_GARBAGE_ID,
            user_row: 0,
            user_col: 2,
            bottom: 0,
        }
    }

    /// The storage row of logical row `y`.
    pub(crate) fn row_of(&self, y: usize) -> (r: usize)
        requires
            self.wf(),
        ensures
            r == phys_row(self.bottom as int, y as int),
            r < NUM_ROWS,
    {
        proof {
            vstd::arithmetic::div_mod::lemma_add_mod_noop_right(
                self.bottom as int,
                y as int,
                NUM_ROWS as int,
            );
        }
        (self.bottom + y % NUM_ROWS) % NUM_ROWS
    }

    /// `b2` is `b1` at the end of a frame: no square swapped, and the chain
    /// flag reset.
    pub open spec fn end_frame_pass(b1: Board, b2: Board) -> bool {
        &&& b2.wf()
        &&& !b2.chains_valid
        &&& forall|i: int| 0 <= i < NUM_CELLS ==> !b2.just_touched@[i]
        &&& b2.cells@ == b1.cells@
        &&& b2.delta == b1.delta
        &&& b2.chain == b1.chain
        &&& b2.next_garbage_id == b1.next_garbage_id
        &&& b2.user_row == b1.user_row
        &&& b2.user_col == b1.user_col
        &&& b2.bottom == b1.bottom
    }

    /// Forgets the swaps of this frame and whether the chain may continue.
    pub(crate) fn end_frame(&mut self)
        requires
            old(self).wf(),
        ensures
            Self::end_frame_pass(*old(self), *final(self)),
    {
        self.chains_valid = false;
        let mut i: usize = 0;
        while i < NUM_CELLS
            invariant
                i <= NUM_CELLS,
                self.just_touched@.len() == NUM_CELLS,
                forall|j: int| 0 <= j < i ==> !self.just_touched@[j],
                self.cells@ == old(self).cells@,
                self.bottom == old(self).bottom,
                self.delta == old(self).delta,
                self.chain == old(self).chain,
                !self.chains_valid,
                self.next_garbage_id == old(self).next_garbage_id,
                self.user_row == old(self).user_row,
                self.user_col == old(self).user_col,
            decreases NUM_CELLS - i,
        {
            self.just_touched.set(i, false);
            i = i + 1;
        }
    }

    /// The square at column `x` of logical row `y`.
    pub fn get_cell(&self, x: usize, y: usize) -> (c: &Cell)
        requires
            self.wf(),
            self.valid_pos(x as int, y as int),
        ensures
            *c == self.cell(x as int, y as int),
    {
        let r = self.row_of(y);
        &self.cells[r * NUM_COLS + x]
    }

    /// The square at column `x` of logical row `y`, to be changed in place.
    pub fn get_cell_mut(&mut self, x: usize, y: usize) -> (c: &mut Cell)
        requires
            old(self).wf(),
            old(self).valid_pos(x as int, y as int),
        ensures
            *c == old(self).cell(x as int, y as int),
            final(self).cells@ == old(self).cells@.update(
                phys_index(old(self).bottom as int, x as int, y as int),
                *final(c),
            ),
            final(self).same_but_cells(*old(self)),
    {
        let r = self.row_of(y);
        &mut self.cells[r * NUM_COLS + x]
    }

    /// The block at column `x` of logical row `y` can fall (see
    /// `below_empty_in`).
    pub open spec fn spec_below_is_empty(self, x: int, y: int) -> bool {
        below_empty_in(self.cells@, self.bottom as int, x, y)
    }

    /// Whether the block at column `x` of logical row `y` can fall.
    pub fn below_is_empty(&self, x: usize, y: usize) -> (r: bool)
        requires
            self.wf(),
            y == 0 || self.valid_pos(x as int, y - 1),
        ensures
            r == self.spec_below_is_empty(x as int, y as int),
    {
        if y == 0 {
            return false;
        }
        let base_y = self.row_of(y - 1);
        match self.cells[base_y * NUM_COLS + x] {
            Cell::Empty => true,
            Cell::Single(_, d) => {
                if y == 1 {
                    false
                } else {
                    d.is_some()
                }
            },
            Cell::Garbage(_, d) => {
                if y == 1 {
                    false
                } else {
                    d.is_some()
                }
            },
            _ => false,
        }
    }

    /// Whether the cursor covers two captcha squares.
    pub fn is_over_captcha(&self) -> (r: bool)
        requires
            self.wf(),
            self.valid_pos(self.user_col as int, self.user_row as int),
            self.valid_pos(self.user_col + 1, self.user_row as int),
        ensures
            r == (self.cell(self.user_col as int, self.user_row as int) is Captcha && self.cell(
                self.user_col + 1,
                self.user_row as int,
            ) is Captcha),
    {
        let c1 = self.get_cell(self.user_col, self.user_row);
        let c2 = self.get_cell(self.user_col + 1, self.user_row);
        matches!(c1, Cell::Captcha(_, _, _, _)) && matches!(c2, Cell::Captcha(_, _, _, _))
    }

    /// Swapping squares `c1` and `c2` is refused: a garbage block never
    /// moves down into, nor is moved by, a swap, the player cannot take
    /// garbage along, and falling blocks are not swapped.
    pub open spec fn swap_refused(c1: Cell, c2: Cell, user: bool) -> bool {
        ||| (user && c1 is Garbage) || c2 is Garbage
        ||| spec_fall_offset(c1) != 0 || spec_fall_offset(c2) != 0
    }

    /// `cells` with the squares at storage indices `i0` and `i1` exchanged.
    pub open spec fn swapped(cells: Seq<Cell>, i0: int, i1: int) -> Seq<Cell> {
        cells.update(i0, cells[i1]).update(i1, cells[i0])
    }

    /// What `swap_cells` leaves: the squares and the swap marks (see
    /// `swap_in`).
    pub open spec fn spec_swap(
        self,
        x0: int,
        y0: int,
        x1: int,
        y1: int,
        user: bool,
    ) -> (Seq<Cell>, Seq<bool>) {
        swap_in(self.cells@, self.just_touched@, self.bottom as int, x0, y0, x1, y1, user)
    }

    /// Exchanges the squares at `(x0, y0)` and `(x1, y1)` unless the swap is
    /// refused; a swap by the player marks both squares as touched.
    pub fn swap_cells(&mut self, x0: usize, y0: usize, x1: usize, y1: usize, user: bool)
        requires
            old(self).wf(),
            old(self).valid_pos(x0 as int, y0 as int),
            old(self).valid_pos(x1 as int, y1 as int),
        ensures
            final(self).wf(),
            (final(self).cells@, final(self).just_touched@) == old(self).spec_swap(
                x0 as int,
                y0 as int,
                x1 as int,
                y1 as int,
                user,
            ),
            final(self).delta == old(self).delta,
            final(self).chain == old(self).chain,
            final(self).chains_valid == old(self).chains_valid,
            final(self).next_garbage_id == old(self).next_garbage_id,
            final(self).user_row == old(self).user_row,
            final(self).user_col == old(self).user_col,
            final(self).bottom == old(self).bottom,
    {
        let i0 = self.row_of(y0) * NUM_COLS + x0;
        let i1 = self.row_of(y1) * NUM_COLS + x1;
        let c1 = self.cells[i0];
        let c2 = self.cells[i1];
        if user && matches!(c1, Cell::Garbage(_, _)) || matches!(c2, Cell::Garbage(_, _)) {
            return;
        }
        if c1.get_fall_offset() != 0 || c2.get_fall_offset() != 0 {
            return;
        }
        self.cells.set(i0, c2);
        self.cells.set(i1, c1);
        if user {
            self.just_touched.set(i0, true);
            self.just_touched.set(i1, true);
        }
    }

    /// Swaps the two squares under the cursor.
    pub fn swap_pieces_at_cursor(&mut self)
        requires
            old(self).wf(),
            old(self).valid_pos(old(self).user_col as int, old(self).user_row as int),
            old(self).valid_pos(old(self).user_col + 1, old(self).user_row as int),
        ensures
            final(self).wf(),
            (final(self).cells@, final(self).just_touched@) == old(self).spec_swap(
                old(self).user_col as int,
                old(self).user_row as int,
                old(self).user_col + 1,
                old(self).user_row as int,
                true,
            ),
            final(self).delta == old(self).delta,
            final(self).chain == old(self).chain,
            final(self).chains_valid == old(self).chains_valid,
            final(self).next_garbage_id == old(self).next_garbage_id,
            final(self).user_row == old(self).user_row,
            final(self).user_col == old(self).user_col,
            final(self).bottom == old(self).bottom,
    {
        self.swap_cells(self.user_col, self.user_row, self.user_col + 1, self.user_row, true);
    }

    /// The storage row that becomes the bottom row when the board scrolls up
    /// by one row.
    pub open spec fn spec_pushed_bottom(bottom: int) -> int {
        if bottom == 0 {
            NUM_ROWS - 1
        } else {
            bottom - 1
        }
    }

    /// Scrolls the board up by one row: every row moves one up, and the top
    /// row's storage becomes the new bottom row.
    pub(crate) fn push_bottom_row_up(&mut self)
        requires
            old(self).wf(),
        ensures
            final(self).wf(),
            final(self).bottom == Self::spec_pushed_bottom(old(self).bottom as int),
            final(self).cells@ == old(self).cells@,
            final(self).just_touched@ == old(self).just_touched@,
            final(self).delta == old(self).delta,
            final(self).chain == old(self).chain,
            final(self).chains_valid == old(self).chains_valid,
            final(self).next_garbage_id == old(self).next_garbage_id,
            final(self).user_row == old(self).user_row,
            final(self).user_col == old(self).user_col,
    {
        if self.bottom == 0 {
            self.bottom = NUM_ROWS - 1;
        } else {
            self.bottom = self.bottom - 1;
        }
    }

    /// Scrolling up moves every row one up: what was row `y` is row `y + 1`,
    /// and the old top row is the new bottom row.
    pub proof fn lemma_push_moves_rows_up(bottom: int, x: int, y: int)
        requires
            0 <= bottom < NUM_ROWS,
            0 <= y,
        ensures
            phys_index(Self::spec_pushed_bottom(bottom), x, y + 1) == phys_index(bottom, x, y),
            phys_index(Self::spec_pushed_bottom(bottom), x, 0) == phys_index(
                bottom,
                x,
                NUM_ROWS - 1,
            ),
    {
        vstd::arithmetic::div_mod::lemma_add_mod_noop_right(bottom, y, NUM_ROWS as int);
        vstd::arithmetic::div_mod::lemma_add_mod_noop_right(
            Self::spec_pushed_bottom(bottom),
            y + 1,
            NUM_ROWS as int,
        );
        vstd::arithmetic::div_mod::lemma_mod_add_multiples_vanish(bottom + y, NUM_ROWS as int);
    }

    /// The bottom row is filled with the resting blocks of colours `values`,
    /// left to right; nothing else changes.
    pub open spec fn spec_row_filled(cells: Seq<Cell>, bottom: int, values: Seq<u32>) -> Seq<Cell> {
        Seq::new(
            cells.len(),
            |i: int|
                if i / (NUM_COLS as int) == bottom {
                    Cell::Single(values[i % (NUM_COLS as int)], None)
                } else {
                    cells[i]
                },
        )
    }

    /// Fills the bottom row with fresh resting blocks of colours `values`.
    pub fn new_bottom_row(&mut self, values: &[u32])
        requires
            old(self).wf(),
            values@.len() == NUM_COLS,
        ensures
            final(self).wf(),
            final(self).cells@ == Self::spec_row_filled(
                old(self).cells@,
                old(self).bottom as int,
                values@,
            ),
            final(self).just_touched@ == old(self).just_touched@,
            final(self).delta == old(self).delta,
            final(self).chain == old(self).chain,
            final(self).chains_valid == old(self).chains_valid,
            final(self).next_garbage_id == old(self).next_garbage_id,
            final(self).user_row == old(self).user_row,
            final(self).user_col == old(self).user_col,
            final(self).bottom == old(self).bottom,
    {
        let base = self.bottom * NUM_COLS;
        let mut x: usize = 0;
        while x < NUM_COLS
            invariant
                x <= NUM_COLS,
                base == self.bottom * NUM_COLS,
                old(self).wf(),
                values@.len() == NUM_COLS,
                self.cells@.len() == NUM_CELLS,
                forall|i: int|
                    0 <= i < NUM_CELLS ==> #[trigger] self.cells@[i] == if i / (NUM_COLS as int)
                        == self.bottom && i % (NUM_COLS as int) < x {
                        Cell::Single(values@[i % (NUM_COLS as int)], None)
                    } else {
                        old(self).cells@[i]
                    },
                self.just_touched@ == old(self).just_touched@,
                self.delta == old(self).delta,
                self.chain == old(self).chain,
                self.chains_valid == old(self).chains_valid,
                self.next_garbage_id == old(self).next_garbage_id,
                self.user_row == old(self).user_row,
                self.user_col == old(self).user_col,
                self.bottom == old(self).bottom,
            decreases NUM_COLS - x,
        {
            self.cells.set(base + x, Cell::Single(values[x], None));
            x = x + 1;
        }
        assert(self.cells@ =~= Self::spec_row_filled(
            old(self).cells@,
            old(self).bottom as int,
            values@,
        ));
    }

    /// Drops a new garbage block, two squares wide, into the top row at
    /// columns `start` and `start + 1`, under a fresh garbage id.
    pub fn new_garbage(&mut self, start: usize)
        requires
            old(self).wf(),
            old(self).valid_pos(start as int, NUM_ROWS - 1),
            old(self).valid_pos(start + 1, NUM_ROWS - 1),
            old(self).next_garbage_id < u32::MAX,
        ensures
            final(self).wf(),
            final(self).cells@ == old(self).cells@.update(
                phys_index(old(self).bottom as int, start as int, NUM_ROWS - 1),
                Cell::Garbage(old(self).next_garbage_id, None),
            ).update(
                phys_index(old(self).bottom as int, start + 1, NUM_ROWS - 1),
                Cell::Garbage(old(self).next_garbage_id, None),
            ),
            final(self).next_garbage_id == old(self).next_garbage_id + 1,
            final(self).just_touched@ == old(self).just_touched@,
            final(self).delta == old(self).delta,
            final(self).chain == old(self).chain,
            final(self).chains_valid == old(self).chains_valid,
            final(self).user_row == old(self).user_row,
            final(self).user_col == old(self).user_col,
            final(self).bottom == old(self).bottom,
    {
        let id = self.next_garbage_id;
        self.next_garbage_id = self.next_garbage_id + 1;
        *self.get_cell_mut(start, NUM_ROWS - 1) = Cell::Garbage(id, None);
        *self.get_cell_mut(start + 1, NUM_ROWS - 1) = Cell::Garbage(id, None);
    }

    /// The enemy's attack: a new garbage block at columns `start` and
    /// `start + 1` of the top row.
    pub fn attack(&mut self, start: usize)
        requires
            old(self).wf(),
            old(self).valid_pos(start as int, NUM_ROWS - 1),
            old(self).valid_pos(start + 1, NUM_ROWS - 1),
            old(self).next_garbage_id < u32::MAX,
        ensures
            final(self).wf(),
            final(self).cells@ == old(self).cells@.update(
                phys_index(old(self).bottom as int, start as int, NUM_ROWS - 1),
                Cell::Garbage(old(self).next_garbage_id, None),
            ).update(
                phys_index(old(self).bottom as int, start + 1, NUM_ROWS - 1),
                Cell::Garbage(old(self).next_garbage_id, None),
            ),
            final(self).next_garbage_id == old(self).next_garbage_id + 1,
            final(self).just_touched@ == old(self).just_touched@,
            final(self).delta == old(self).delta,
            final(self).chain == old(self).chain,
            final(self).chains_valid == old(self).chains_valid,
            final(self).user_row == old(self).user_row,
            final(self).user_col == old(self).user_col,
            final(self).bottom == old(self).bottom,
    {
        self.new_garbage(start);
    }

    /// What a captcha answer `input` leaves of the squares (see
    /// `captcha_answered_in`).
    pub open spec fn spec_captcha_answered(self, input: CaptchaInput, values: (u32, u32)) -> Seq<
        Cell,
    > {
        captcha_answered_in(
            self.cells@,
            self.bottom as int,
            self.user_col as int,
            self.user_row as int,
            input,
            values,
        )
    }

    /// Answers the captcha under the cursor with direction `input`; a solved
    /// captcha becomes two resting blocks of colours `values`.
    pub fn do_captcha_input(&mut self, input: CaptchaInput, values: (u32, u32))
        requires
            old(self).wf(),
            old(self).valid_pos(old(self).user_col as int, old(self).user_row as int),
            old(self).cell(old(self).user_col as int, old(self).user_row as int) matches Cell::Captcha(
                _,
                _,
                _,
                true,
            ) ==> old(self).valid_pos(old(self).user_col + 1, old(self).user_row as int),
        ensures
            final(self).wf(),
            final(self).cells@ == old(self).spec_captcha_answered(input, values),
            final(self).just_touched@ == old(self).just_touched@,
            final(self).delta == old(self).delta,
            final(self).chain == old(self).chain,
            final(self).chains_valid == old(self).chains_valid,
            final(self).next_garbage_id == old(self).next_garbage_id,
            final(self).user_row == old(self).user_row,
            final(self).user_col == old(self).user_col,
            final(self).bottom == old(self).bottom,
    {
        let x = self.user_col;
        let y = self.user_row;
        let mut convert = false;
        let c1 = *self.get_cell(x, y);
        if let Cell::Captcha(id, v, o, m) = c1 {
            if !m {
                if v == input {
                    *self.get_cell_mut(x, y) = Cell::Captcha(id, v, o, true);
                }
            } else {
                let c2 = *self.get_cell(x + 1, y);
                if let Cell::Captcha(id2, v2, o2, m2) = c2 {
                    if !m2 {
                        if v2 == input {
                            *self.get_cell_mut(x + 1, y) = Cell::Captcha(id2, v2, o2, true);
                            convert = true;
                        }
                    }
                }
            }
        }
        if convert {
            *self.get_cell_mut(x, y) = Cell::Single(values.0, None);
            *self.get_cell_mut(x + 1, y) = Cell::Single(values.1, None);
        }
    }

    /// How many rows ago the square at logical row `y` was the bottom row,
    /// counting the rows that the board has scrolled since.
    pub open spec fn rows_since_bottom(y: int) -> int {
        if y == 0 {
            NUM_ROWS as int
        } else {
            y
        }
    }

    /// The colours `values[start..start + NUM_COLS]`.
    fn row_values(values: &[u32], start: usize) -> (row: Vec<u32>)
        requires
            start + NUM_COLS <= values.len(),
        ensures
            row@ == values@.subrange(start as int, start + NUM_COLS),
    {
        let mut row: Vec<u32> = Vec::new();
        let mut x: usize = 0;
        while x < NUM_COLS
            invariant
                x <= NUM_COLS,
                start + NUM_COLS <= values.len(),
                row@ == values@.subrange(start as int, start + x),
            decreases NUM_COLS - x,
        {
            row.push(values[start + x]);
            x = x + 1;
            assert(row@ =~= values@.subrange(start as int, start + x));
        }
        row
    }

    /// Fills the first `level` rows for the start of a game: the bottom row
    /// gets the colours `values[(level - 1) * NUM_COLS..]`, the row above it
    /// the ones before those, and so on up; the cursor moves to row
    /// `level / 2`. Where `level` exceeds the rows of the board, the
    /// earliest rows scroll out over the top.
    #[verifier::spinoff_prover]
    pub fn init_with_state(&mut self, level: usize, values: &[u32])
        requires
            old(self).wf(),
            level >= 1,
            values.len() == level * NUM_COLS,
        ensures
            final(self).wf(),
            final(self).bottom as int == (old(self).bottom - (level - 1)) % (NUM_ROWS as int),
            forall|x: int, y: int|
                0 <= x < NUM_COLS && 0 <= y < NUM_ROWS ==> #[trigger] final(self).cells@[phys_index(
                    final(self).bottom as int,
                    x,
                    y,
                )] == if y < level {
                    Cell::Single(values@[(level - 1 - y) * NUM_COLS + x], None)
                } else {
                    old(self).cells@[phys_index(final(self).bottom as int, x, y)]
                },
            final(self).user_row == level / 2,
            final(self).just_touched@ == old(self).just_touched@,
            final(self).delta == old(self).delta,
            final(self).chain == old(self).chain,
            final(self).chains_valid == old(self).chains_valid,
            final(self).next_garbage_id == old(self).next_garbage_id,
            final(self).user_col == old(self).user_col,
    {
        let ghost b0 = self.bottom as int;
        let mut k: usize = 0;
        while k < level - 1
            invariant
                k <= level - 1,
                values.len() == level * NUM_COLS,
                self.wf(),
                self.bottom as int == (b0 - k) % (NUM_ROWS as int),
                forall|x: int, y: int|
                    0 <= x < NUM_COLS && 0 <= y < NUM_ROWS ==> #[trigger] self.cells@[phys_index(
                        self.bottom as int,
                        x,
                        y,
                    )] == if Self::rows_since_bottom(y) <= k {
                        Cell::Single(
                            values@[(k - Self::rows_since_bottom(y)) * NUM_COLS + x],
                            None,
                        )
                    } else {
                        old(self).cells@[phys_index(self.bottom as int, x, y)]
                    },
                self.just_touched@ == old(self).just_touched@,
                self.delta == old(self).delta,
                self.chain == old(self).chain,
                self.chains_valid == old(self).chains_valid,
                self.next_garbage_id == old(self).next_garbage_id,
                self.user_col == old(self).user_col,
                self.user_row == old(self).user_row,
            decreases level - 1 - k,
        {
            assert(k * NUM_COLS + NUM_COLS <= level * NUM_COLS) by (nonlinear_arith)
                requires
                    k + 1 <= level,
            ;
            let row = Self::row_values(values, k * NUM_COLS);
            let ghost before = self.cells@;
            let ghost b = self.bottom as int;
            self.new_bottom_row(row.as_slice());
            self.push_bottom_row_up();
            proof {
                assert forall|x: int, y: int|
                    0 <= x < NUM_COLS && 0 <= y < NUM_ROWS implies #[trigger] self.cells@[phys_index(
                        self.bottom as int,
                        x,
                        y,
                    )] == if Self::rows_since_bottom(y) <= k + 1 {
                        Cell::Single(
                            values@[(k + 1 - Self::rows_since_bottom(y)) * NUM_COLS + x],
                            None,
                        )
                    } else {
                        old(self).cells@[phys_index(self.bottom as int, x, y)]
                    } by {
                    if y >= 1 {
                        Self::lemma_push_moves_rows_up(b, x, y - 1);
                        assert(phys_index(self.bottom as int, x, y) == phys_index(b, x, y - 1));
                        if y == 1 {
                            assert(phys_index(b, x, 0) / (NUM_COLS as int) == b);
                            assert(phys_index(b, x, 0) % (NUM_COLS as int) == x);
                        } else {
                            assert(phys_index(b, x, y - 1) / (NUM_COLS as int) != b);
                        }
                    } else {
                        Self::lemma_push_moves_rows_up(b, x, 0);
                        assert(phys_index(self.bottom as int, x, 0) == phys_index(
                            b,
                            x,
                            NUM_ROWS - 1,
                        ));
                        assert(phys_index(b, x, NUM_ROWS - 1) / (NUM_COLS as int) != b);
                    }
                }
            }
            k = k + 1;
        }
        assert((level - 1) * NUM_COLS + NUM_COLS == level * NUM_COLS) by (nonlinear_arith);
        let row = Self::row_values(values, (level - 1) * NUM_COLS);
        let ghost b = self.bottom as int;
        self.new_bottom_row(row.as_slice());
        proof {
            assert forall|x: int, y: int|
                0 <= x < NUM_COLS && 0 <= y < NUM_ROWS implies #[trigger] self.cells@[phys_index(
                    self.bottom as int,
                    x,
                    y,
                )] == if y < level {
                    Cell::Single(values@[(level - 1 - y) * NUM_COLS + x], None)
                } else {
                    old(self).cells@[phys_index(self.bottom as int, x, y)]
                } by {
                if y == 0 {
                    assert(phys_index(b, x, 0) / (NUM_COLS as int) == b);
                    assert(phys_index(b, x, 0) % (NUM_COLS as int) == x);
                } else {
                    assert(phys_index(b, x, y) / (NUM_COLS as int) != b);
                }
            }
        }
        self.user_row = level / 2;
    }

    /// The square visited at step `s` of the column-by-column scan.
    pub open spec fn scan_cell(self, s: int) -> Cell {
        self.cells@[scan_index(self.bottom as int, s)]
    }

    /// Reads the square visited at step `s` of the scan.
    pub(crate) fn get_scan_cell(&self, s: usize) -> (c: Cell)
        requires
            self.wf(),
            s < NUM_CELLS,
        ensures
            c == self.scan_cell(s as int),
    {
        proof {
            lemma_scan_injective(self.bottom as int, s as int, if s == 0 { 1 } else { 0 });
        }
        *self.get_cell(s / NUM_ROWS, s % NUM_ROWS)
    }

    /// Replaces the square visited at step `s` of the scan.
    pub(crate) fn set_scan_cell(&mut self, s: usize, c: Cell)
        requires
            old(self).wf(),
            s < NUM_CELLS,
        ensures
            final(self).wf(),
            final(self).cells@ == old(self).cells@.update(
                scan_index(old(self).bottom as int, s as int),
                c,
            ),
            final(self).same_but_cells(*old(self)),
    {
        proof {
            lemma_scan_injective(self.bottom as int, s as int, if s == 0 { 1 } else { 0 });
        }
        *self.get_cell_mut(s / NUM_ROWS, s % NUM_ROWS) = c;
    }
}

} // verus!
