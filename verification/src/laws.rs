use vstd::prelude::*;
use vstd::multiset::Multiset;
use crate::board::{
    Board, CaptchaInput, NUM_CELLS, NUM_COLS, NUM_ROWS, START_GARBAGE_ID, CAPTCHA_SPRITE_BASE,
    phys_index, phys_row, swap_in,
};
use crate::cell::{Cell, spec_matches};
use crate::chain::Chain;
use crate::game::{Game, GameState, HostCall, FrameRolls, NUM_LETTERS};
use crate::input::Input;
use crate::enemy::{spec_delayed, COOLDOWN};
use crate::time::spec_tick_down;
use crate::anims::{spec_death_step, DEATH_STEP};
use crate::board::{scan_index, scan_step_of, lemma_scan_bijective, cell_in, below_empty_in};
use crate::matches::{last_cover, run_covers};
use crate::frame::{SCROLL_UNIT, spec_scroll, spec_reaches_row};
use crate::render::spec_multipliers;
use crate::gravity::{
    GravityEntry, apply_move, apply_moves, all_moves, group_moves, group_ids, settle_scan,
    settle_step, spec_gravity, swap_down_in, SETTLE_STEPS,
};

verus! {

/// The square of run `m` at distance `k` from its first square.
pub open spec fn run_square(b: Board, m: (bool, int, int, int), k: int) -> Cell {
    if m.0 {
        b.cell(m.1 + k, m.2)
    } else {
        b.cell(m.1, m.2 + k)
    }
}

/// Every square of run `m` lies on the board; the run has at least three
/// squares, the first a resting coloured block, and every square is that
/// same block.
pub open spec fn is_resting_line(b: Board, m: (bool, int, int, int)) -> bool {
    &&& m.3 >= 2
    &&& 0 <= m.1 < NUM_COLS
    &&& 0 <= m.2 < NUM_ROWS
    &&& m.0 ==> m.1 + m.3 < NUM_COLS
    &&& !m.0 ==> m.2 + m.3 < NUM_ROWS - 1
    &&& b.cell(m.1, m.2) matches Cell::Single(_, None)
    &&& forall|k: int| 0 <= k <= m.3 ==> #[trigger] run_square(b, m, k) == b.cell(m.1, m.2)
}

proof fn lemma_hrun(b: Board, x: int, y: int, k0: int)
    requires
        0 <= x < NUM_COLS,
        0 <= k0,
        x + k0 < NUM_COLS,
    ensures
        k0 <= b.hrun_from(x, y, k0),
        x + b.hrun_from(x, y, k0) < NUM_COLS,
        forall|j: int|
            k0 <= j < b.hrun_from(x, y, k0) ==> spec_matches(
                #[trigger] b.cell(x + j + 1, y),
                b.cell(x, y),
            ),
    decreases NUM_COLS - x - k0,
{
    if x + k0 + 1 < NUM_COLS && spec_matches(b.cell(x + k0 + 1, y), b.cell(x, y)) {
        lemma_hrun(b, x, y, k0 + 1);
    }
}

proof fn lemma_vrun(b: Board, x: int, y: int, k0: int)
    requires
        0 <= y < NUM_ROWS,
        0 <= k0,
        y + k0 < NUM_ROWS,
    ensures
        k0 <= b.vrun_from(x, y, k0),
        y + b.vrun_from(x, y, k0) < NUM_ROWS,
        b.vrun_from(x, y, k0) > k0 ==> y + b.vrun_from(x, y, k0) < NUM_ROWS - 1,
        forall|j: int|
            k0 <= j < b.vrun_from(x, y, k0) ==> spec_matches(
                #[trigger] b.cell(x, y + j + 1),
                b.cell(x, y),
            ),
    decreases NUM_ROWS - y - k0,
{
    if y + k0 + 1 < NUM_ROWS - 1 && spec_matches(b.cell(x, y + k0 + 1), b.cell(x, y)) {
        lemma_vrun(b, x, y, k0 + 1);
    }
}

proof fn lemma_runs_at_lines(b: Board, s: int)
    requires
        0 <= s < NUM_CELLS,
    ensures
        forall|i: int| 0 <= i < b.runs_at(s).len() ==> is_resting_line(b, #[trigger] b.runs_at(s)[i]),
{
    let x = s / 12;
    let y = s % 12;
    lemma_hrun(b, x, y, 0);
    lemma_vrun(b, x, y, 0);
    let h = b.hrun_from(x, y, 0);
    let v = b.vrun_from(x, y, 0);
    if b.cell(x, y) is Single {
        if h >= 2 {
            let m = (true, x, y, h);
            assert(spec_matches(b.cell(x + 1, y), b.cell(x, y)));
            assert forall|k: int| 0 <= k <= m.3 implies #[trigger] run_square(b, m, k) == b.cell(
                m.1,
                m.2,
            ) by {
                if k > 0 {
                    assert(spec_matches(b.cell(x + (k - 1) + 1, y), b.cell(x, y)));
                }
            }
            assert(is_resting_line(b, m));
        }
        if v >= 2 {
            let m = (false, x, y, v);
            assert(spec_matches(b.cell(x, y + 1), b.cell(x, y)));
            assert forall|k: int| 0 <= k <= m.3 implies #[trigger] run_square(b, m, k) == b.cell(
                m.1,
                m.2,
            ) by {
                if k > 0 {
                    assert(spec_matches(b.cell(x, y + (k - 1) + 1), b.cell(x, y)));
                }
            }
            assert(is_resting_line(b, m));
        }
    }
}

proof fn lemma_runs_upto_lines(b: Board, s: int)
    requires
        0 <= s <= NUM_CELLS,
    ensures
        forall|i: int|
            0 <= i < b.runs_upto(s).len() ==> is_resting_line(b, #[trigger] b.runs_upto(s)[i]),
    decreases s,
{
    if s > 0 {
        lemma_runs_upto_lines(b, s - 1);
        lemma_runs_at_lines(b, s - 1);
        let prev = b.runs_upto(s - 1);
        let here = b.runs_at(s - 1);
        assert forall|i: int| 0 <= i < b.runs_upto(s).len() implies is_resting_line(
            b,
            #[trigger] b.runs_upto(s)[i],
        ) by {
            if i < prev.len() {
                assert(b.runs_upto(s)[i] == prev[i]);
            } else {
                assert(b.runs_upto(s)[i] == here[i - prev.len()]);
            }
        }
    }
}

/// A match is three or more resting coloured blocks of one colour in a
/// row (left to right) or a column (upwards, below the top row): every run
/// that the match pass finds is such a line, and falling blocks never take
/// part in one.
pub proof fn law_runs_are_resting_lines(b: Board, i: int)
    requires
        0 <= i < b.all_runs().len(),
    ensures
        is_resting_line(b, b.all_runs()[i]),
{
    lemma_runs_upto_lines(b, NUM_CELLS as int);
}

proof fn lemma_last_cover_run(ms: Seq<(bool, int, int, int)>, x: int, y: int)
    requires
        last_cover(ms, x, y) > 0,
    ensures
        0 < last_cover(ms, x, y) <= ms.len(),
        run_covers(ms[last_cover(ms, x, y) - 1], x, y),
    decreases ms.len(),
{
    if ms.len() > 0 && !run_covers(ms.last(), x, y) {
        lemma_last_cover_run(ms.drop_last(), x, y);
    }
}

/// The match pass queues for deletion only resting coloured blocks that lie
/// in a match: a square that is not garbage and gets a match index holds a
/// resting coloured block, covered by the run of that index.
pub proof fn law_deleted_squares_were_matched(b: Board, p: int)
    requires
        b.wf(),
        0 <= p < NUM_CELLS,
        Board::spec_deleted(b.match_state(), p),
        !(b.cells@[p] is Garbage),
    ensures
        b.cells@[p] matches Cell::Single(_, None),
        ({
            let t = crate::board::scan_step_of(b.bottom as int, p);
            let idx = b.match_state()[p] as int;
            run_covers(b.all_runs()[idx - 1], t / (NUM_ROWS as int), t % (NUM_ROWS as int))
        }),
{
    let bot = b.bottom as int;
    crate::board::lemma_scan_bijective(bot);
    let t = crate::board::scan_step_of(bot, p);
    let (x, y) = (t / 12, t % 12);
    let ms = b.all_runs();
    let lc = last_cover(ms, x, y);
    b.lemma_all_runs_len();
    crate::matches::lemma_last_cover_bound(ms, x, y);
    assert(b.match_state()[p] == lc as u32);
    assert(lc as u32 as int == lc);
    lemma_last_cover_run(ms, x, y);
    let m = ms[lc - 1];
    law_runs_are_resting_lines(b, lc - 1);
    let k = if m.0 {
        x - m.1
    } else {
        y - m.2
    };
    assert(run_square(b, m, k) == b.cell(m.1, m.2));
    assert(crate::board::scan_index(bot, t) == p);
    assert(b.cell(x, y) == b.cells@[p]);
}

/// Swapping the same two squares twice by the player restores the squares:
/// a player's swap is undone by the same swap.
pub proof fn law_user_swap_twice_restores(
    cells: Seq<Cell>,
    touched: Seq<bool>,
    bottom: int,
    x0: int,
    y0: int,
    x1: int,
    y1: int,
)
    requires
        0 <= phys_index(bottom, x0, y0) < cells.len(),
        0 <= phys_index(bottom, x1, y1) < cells.len(),
        touched.len() == cells.len(),
    ensures
        ({
            let first = swap_in(cells, touched, bottom, x0, y0, x1, y1, true);
            let second = swap_in(first.0, first.1, bottom, x0, y0, x1, y1, true);
            &&& second.0 == cells
            &&& second.1 == first.1
        }),
{
    let i0 = phys_index(bottom, x0, y0);
    let i1 = phys_index(bottom, x1, y1);
    let first = swap_in(cells, touched, bottom, x0, y0, x1, y1, true);
    let second = swap_in(first.0, first.1, bottom, x0, y0, x1, y1, true);
    if !Board::swap_refused(cells[i0], cells[i1], true) {
        assert(first.0[i0] == cells[i1]);
        assert(first.0[i1] == cells[i0]);
        assert(second.0 =~= cells);
        assert(second.1 =~= first.1);
    }
}

/// When the board scrolls a whole row, every row moves up one: what was in
/// row `y` is in row `y + 1` (the old top row gives way to the new bottom
/// row), the new bottom row holds resting blocks of the given colours, and
/// the cursor moves up with the rows, staying on the same squares.
#[verifier::spinoff_prover]
#[verifier::rlimit(40)]
pub proof fn law_scroll_moves_rows_up(
    b1: Board,
    b2: Board,
    dt: int,
    boost: bool,
    values: Seq<u32>,
)
    requires
        b1.wf(),
        Board::scroll_pass(b1, b2, dt, boost, values),
        spec_reaches_row(b1.delta, dt, boost),
        values.len() == NUM_COLS,
    ensures
        forall|x: int, y: int|
            0 <= x < NUM_COLS && 0 <= y < NUM_ROWS - 1 ==> #[trigger] b2.cell(x, y + 1) == b1.cell(
                x,
                y,
            ),
        forall|x: int| 0 <= x < NUM_COLS ==> #[trigger] b2.cell(x, 0) == Cell::Single(values[x], None),
        b2.user_row == b1.user_row + 1,
        b2.user_col == b1.user_col,
        b1.user_col < NUM_COLS && (b1.user_row as int) % (NUM_ROWS as int) != NUM_ROWS - 1 ==> b2.cell(
            b2.user_col as int,
            b2.user_row as int,
        ) == b1.cell(b1.user_col as int, b1.user_row as int),
{
    let bot = b1.bottom as int;
    let nb = b2.bottom as int;
    assert forall|x: int, y: int| 0 <= x < NUM_COLS && 0 <= y < NUM_ROWS - 1 implies #[trigger] b2.cell(
        x,
        y + 1,
    ) == b1.cell(x, y) by {
        Board::lemma_push_moves_rows_up(bot, x, y);
        assert(phys_index(bot, x, y) / 6 != nb);
    }
    assert forall|x: int| 0 <= x < NUM_COLS implies #[trigger] b2.cell(x, 0) == Cell::Single(
        values[x],
        None,
    ) by {
        assert(phys_index(nb, x, 0) / 6 == nb);
        assert(phys_index(nb, x, 0) % 6 == x);
    }
    let (uc, ur) = (b1.user_col as int, b1.user_row as int);
    if ur % 12 != 11 && 0 <= uc < NUM_COLS {
        let y = ur % 12;
        vstd::arithmetic::div_mod::lemma_add_mod_noop_right(bot, ur, 12);
        vstd::arithmetic::div_mod::lemma_add_mod_noop_right(nb, ur + 1, 12);
        assert((ur + 1) % 12 == y + 1);
        assert(phys_row(bot, ur) == phys_row(bot, y));
        assert(phys_row(nb, ur + 1) == phys_row(nb, y + 1));
        assert(b2.cell(uc, y + 1) == b1.cell(uc, y));
    }
}

/// Handling the player's input keeps the cursor on the board: its left
/// square in the first five columns and its row below the top row.
pub proof fn law_cursor_stays_on_board(
    g1: Game,
    g2: Game,
    dt: int,
    input: crate::input::Input,
    values: (u32, u32),
)
    requires
        Game::handle_input_rel(g1, g2, dt, input, values),
        g1.board.user_col <= NUM_COLS - 2,
        g1.board.user_row <= NUM_ROWS - 2,
    ensures
        g2.board.user_col <= NUM_COLS - 2,
        g2.board.user_row <= NUM_ROWS - 2,
{
}

/// The name picker never leaves the alphabet: a letter in range stays in
/// range, and the letter index grows by at most one per frame.
pub proof fn law_name_pick_stays_in_alphabet(
    li: int,
    cl: int,
    prev: (bool, bool, bool),
    input: crate::input::Input,
)
    requires
        0 <= cl < NUM_LETTERS,
    ensures
        0 <= Game::spec_name_pick(li, cl, prev, input).1 < NUM_LETTERS,
        li <= Game::spec_name_pick(li, cl, prev, input).0 <= li + 1,
{
}

/// A closing chain reports its multiplier once: once `update` has returned
/// it, the next update returns nothing.
pub proof fn law_chain_reports_once(
    c1: Chain,
    c2: Chain,
    c3: Chain,
    dt1: int,
    dt2: int,
    r1: Option<u32>,
    r2: Option<u32>,
)
    requires
        dt1 >= 0,
        Chain::update_rel(c1, c2, dt1, r1),
        Chain::update_rel(c2, c3, dt2, r2),
        r1 is Some,
    ensures
        r2 is None,
{
}

/// After a frame of the board, no square counts as just swapped and the
/// chain flag is reset; the cursor's column and the next garbage id are
/// untouched.
pub proof fn law_frame_ends_clean(
    b1: Board,
    b2: Board,
    dt: int,
    boost: bool,
    values: Seq<u32>,
    dirs: Seq<u32>,
    r: Option<u32>,
)
    requires
        Board::update_rel(b1, b2, dt, boost, values, dirs, r),
    ensures
        !b2.chains_valid,
        forall|i: int| 0 <= i < NUM_CELLS ==> !b2.just_touched@[i],
        b2.user_col == b1.user_col,
        b2.next_garbage_id == b1.next_garbage_id,
{
}

/// A square with its fall offset forgotten: what block it is.
pub open spec fn block_of(c: Cell) -> Cell {
    match c {
        Cell::Single(v, _) => Cell::Single(v, None),
        Cell::Garbage(id, _) => Cell::Garbage(id, None),
        Cell::Captcha(id, s, _, m) => Cell::Captcha(id, s, None, m),
        Cell::QueuedDelete(v, i, _, cd, ch) => Cell::QueuedDelete(v, i, 0, cd, ch),
        Cell::DeathAnim(v, _, b, a) => Cell::DeathAnim(v, 0, b, a),
        Cell::Empty => Cell::Empty,
    }
}

/// The blocks on the squares `cells`, wherever they are and however far
/// they have fallen.
pub open spec fn blocks(cells: Seq<Cell>) -> Multiset<Cell> {
    cells.map_values(|c: Cell| block_of(c)).to_multiset()
}

proof fn lemma_update_same_block(cells: Seq<Cell>, i: int, c: Cell)
    requires
        0 <= i < cells.len(),
        block_of(c) == block_of(cells[i]),
    ensures
        blocks(cells.update(i, c)) == blocks(cells),
        cells.update(i, c).len() == cells.len(),
{
    assert(cells.update(i, c).map_values(|c: Cell| block_of(c)) =~= cells.map_values(
        |c: Cell| block_of(c),
    ));
}

proof fn lemma_swap_same_blocks(cells: Seq<Cell>, i0: int, i1: int)
    requires
        0 <= i0 < cells.len(),
        0 <= i1 < cells.len(),
    ensures
        blocks(Board::swapped(cells, i0, i1)) == blocks(cells),
        Board::swapped(cells, i0, i1).len() == cells.len(),
{
    broadcast use vstd::seq_lib::to_multiset_update, vstd::multiset::group_multiset_axioms;

    let m = cells.map_values(|c: Cell| block_of(c));
    let sw = Board::swapped(cells, i0, i1);
    let step1 = m.update(i0, m[i1]);
    assert(sw.map_values(|c: Cell| block_of(c)) =~= step1.update(i1, m[i0]));
    if i0 == i1 {
        assert(step1.update(i1, m[i0]) =~= m);
    } else {
        assert(step1.to_multiset() == m.to_multiset().insert(m[i1]).remove(m[i0]));
        assert(step1[i1] == m[i1]);
        assert(step1.update(i1, m[i0]).to_multiset() == step1.to_multiset().insert(m[i0]).remove(
            m[i1],
        ));
        let ms = m.to_multiset();
        assert(m.contains(m[i0]));
        assert(m.contains(m[i1]));
        vstd::seq_lib::to_multiset_contains(m, m[i0]);
        vstd::seq_lib::to_multiset_contains(m, m[i1]);
        assert(ms.count(m[i0]) > 0);
        assert(ms.count(m[i1]) > 0);
        assert(ms.insert(m[i1]).remove(m[i0]).insert(m[i0]).remove(m[i1]) =~= ms);
        assert(step1.update(i1, m[i0]).to_multiset() =~= m.to_multiset());
    }
}

proof fn lemma_swap_down_same_blocks(cells: Seq<Cell>, bottom: int, x: int, y: int)
    requires
        cells.len() == NUM_CELLS,
        0 <= bottom < NUM_ROWS,
        0 <= x < NUM_COLS,
        1 <= y < NUM_ROWS,
    ensures
        blocks(swap_down_in(cells, bottom, x, y)) == blocks(cells),
        swap_down_in(cells, bottom, x, y).len() == cells.len(),
{
    lemma_swap_same_blocks(cells, phys_index(bottom, x, y), phys_index(bottom, x, y - 1));
}

proof fn lemma_settle_step_same_blocks(cells: Seq<Cell>, bottom: int, x: int, y: int, dt: int)
    requires
        cells.len() == NUM_CELLS,
        0 <= bottom < NUM_ROWS,
        0 <= x < NUM_COLS,
        1 <= y < NUM_ROWS,
    ensures
        blocks(settle_step(cells, bottom, x, y, dt).0) == blocks(cells),
        settle_step(cells, bottom, x, y, dt).0.len() == cells.len(),
        forall|j: int|
            0 <= j < settle_step(cells, bottom, x, y, dt).2.len() ==> (#[trigger] settle_step(
                cells,
                bottom,
                x,
                y,
                dt,
            ).2[j]).1 == x && settle_step(cells, bottom, x, y, dt).2[j].2 == y,
{
    let i = phys_index(bottom, x, y);
    match cells[i] {
        Cell::Single(v, o) => {
            let (o2, moves) = crate::gravity::spec_fall(o, dt);
            lemma_update_same_block(cells, i, Cell::Single(v, o2));
            if moves {
                lemma_swap_down_same_blocks(cells.update(i, Cell::Single(v, o2)), bottom, x, y);
            }
            lemma_update_same_block(cells, i, Cell::Single(v, None));
        },
        _ => {},
    }
}

proof fn lemma_settle_scan_same_blocks(cells: Seq<Cell>, bottom: int, dt: int, g: int)
    requires
        cells.len() == NUM_CELLS,
        0 <= bottom < NUM_ROWS,
        0 <= g <= SETTLE_STEPS,
    ensures
        blocks(settle_scan(cells, bottom, dt, g).0) == blocks(cells),
        settle_scan(cells, bottom, dt, g).0.len() == cells.len(),
        forall|j: int|
            0 <= j < settle_scan(cells, bottom, dt, g).2.len() ==> 0 <= (
            #[trigger] settle_scan(cells, bottom, dt, g).2[j]).1 < NUM_COLS && 1 <= settle_scan(
                cells,
                bottom,
                dt,
                g,
            ).2[j].2 < NUM_ROWS,
    decreases g,
{
    if g > 0 {
        lemma_settle_scan_same_blocks(cells, bottom, dt, g - 1);
        let prev = settle_scan(cells, bottom, dt, g - 1);
        let x = (g - 1) % 6;
        let y = (g - 1) / 6 + 1;
        lemma_settle_step_same_blocks(prev.0, bottom, x, y, dt);
        let st = settle_step(prev.0, bottom, x, y, dt);
        let es = prev.2 + st.2;
        assert forall|j: int| 0 <= j < es.len() implies 0 <= (#[trigger] es[j]).1 < NUM_COLS && 1
            <= es[j].2 < NUM_ROWS by {
            if j < prev.2.len() {
                assert(es[j] == prev.2[j]);
            } else {
                assert(es[j] == st.2[j - prev.2.len()]);
            }
        }
    }
}

/// The notes `entries` all lie on the board above the bottom row.
pub open spec fn entries_on_board(entries: Seq<GravityEntry>) -> bool {
    forall|j: int|
        0 <= j < entries.len() ==> 0 <= (#[trigger] entries[j]).1 < NUM_COLS && 1 <= entries[j].2
            < NUM_ROWS
}

/// The moves `moves` all lie on the board above the bottom row.
pub open spec fn moves_on_board(moves: Seq<(int, int, bool)>) -> bool {
    forall|j: int|
        0 <= j < moves.len() ==> 0 <= (#[trigger] moves[j]).0 < NUM_COLS && 1 <= moves[j].1
            < NUM_ROWS
}

proof fn lemma_group_moves_on_board(entries: Seq<GravityEntry>, id: u32, n: int)
    requires
        entries_on_board(entries),
        n <= entries.len(),
    ensures
        moves_on_board(group_moves(entries, id, n)),
    decreases n,
{
    if n > 0 {
        lemma_group_moves_on_board(entries, id, n - 1);
        let prev = group_moves(entries, id, n - 1);
        let all = group_moves(entries, id, n);
        assert forall|j: int| 0 <= j < all.len() implies 0 <= (#[trigger] all[j]).0 < NUM_COLS && 1
            <= all[j].1 < NUM_ROWS by {
            if j < prev.len() {
                assert(all[j] == prev[j]);
            }
        }
    }
}

proof fn lemma_all_moves_on_board(entries: Seq<GravityEntry>, ids: Seq<u32>, k: int)
    requires
        entries_on_board(entries),
        k <= ids.len(),
    ensures
        moves_on_board(all_moves(entries, ids, k)),
    decreases k,
{
    if k > 0 {
        lemma_all_moves_on_board(entries, ids, k - 1);
        lemma_group_moves_on_board(entries, ids[k - 1], entries.len() as int);
        let prev = all_moves(entries, ids, k - 1);
        let g = group_moves(entries, ids[k - 1], entries.len() as int);
        let all = all_moves(entries, ids, k);
        assert forall|j: int| 0 <= j < all.len() implies 0 <= (#[trigger] all[j]).0 < NUM_COLS && 1
            <= all[j].1 < NUM_ROWS by {
            if j < prev.len() {
                assert(all[j] == prev[j]);
            } else {
                assert(all[j] == g[j - prev.len()]);
            }
        }
    }
}

proof fn lemma_apply_moves_same_blocks(
    cells: Seq<Cell>,
    bottom: int,
    moves: Seq<(int, int, bool)>,
    dt: int,
    k: int,
)
    requires
        cells.len() == NUM_CELLS,
        0 <= bottom < NUM_ROWS,
        moves_on_board(moves),
        0 <= k <= moves.len(),
    ensures
        blocks(apply_moves(cells, bottom, moves, dt, k)) == blocks(cells),
        apply_moves(cells, bottom, moves, dt, k).len() == cells.len(),
    decreases k,
{
    if k > 0 {
        lemma_apply_moves_same_blocks(cells, bottom, moves, dt, k - 1);
        let prev = apply_moves(cells, bottom, moves, dt, k - 1);
        let (x, y, falling) = moves[k - 1];
        let i = phys_index(bottom, x, y);
        match prev[i] {
            Cell::Garbage(id, o) => {
                let (o2, mv) = crate::gravity::spec_fall(o, dt);
                lemma_update_same_block(prev, i, Cell::Garbage(id, o2));
                lemma_update_same_block(prev, i, Cell::Garbage(id, None));
                if mv {
                    lemma_swap_down_same_blocks(prev.update(i, Cell::Garbage(id, o2)), bottom, x, y);
                }
            },
            Cell::Captcha(id, sp, o, m) => {
                let (o2, mv) = crate::gravity::spec_fall(o, dt);
                lemma_update_same_block(prev, i, Cell::Captcha(id, sp, o2, m));
                lemma_update_same_block(prev, i, Cell::Captcha(id, sp, None, m));
                if mv {
                    lemma_swap_down_same_blocks(
                        prev.update(i, Cell::Captcha(id, sp, o2, m)),
                        bottom,
                        x,
                        y,
                    );
                }
            },
            _ => {},
        }
    }
}

/// Gravity only moves blocks: it never creates, destroys or changes one.
/// The blocks on the board, with their fall offsets forgotten, are the same
/// before and after.
pub proof fn law_gravity_keeps_blocks(cells: Seq<Cell>, bottom: int, dt: int)
    requires
        cells.len() == NUM_CELLS,
        0 <= bottom < NUM_ROWS,
    ensures
        blocks(spec_gravity(cells, bottom, dt)) == blocks(cells),
        spec_gravity(cells, bottom, dt).len() == NUM_CELLS,
{
    lemma_settle_scan_same_blocks(cells, bottom, dt, SETTLE_STEPS as int);
    let first = settle_scan(cells, bottom, dt, SETTLE_STEPS as int);
    let ids = group_ids(first.2, first.2.len() as int);
    lemma_all_moves_on_board(first.2, ids, ids.len() as int);
    let moves = all_moves(first.2, ids, ids.len() as int);
    lemma_apply_moves_same_blocks(first.0, bottom, moves, dt, moves.len() as int);
}

/// A frame's fall moves blocks on the board but never creates, destroys
/// or changes one (see `law_gravity_keeps_blocks`).
pub proof fn law_gravity_pass_keeps_blocks(b1: Board, b2: Board, dt: int)
    requires
        b1.wf(),
        Board::gravity_pass(b1, b2, dt),
    ensures
        blocks(b2.cells@) == blocks(b1.cells@),
{
    law_gravity_keeps_blocks(b1.cells@, b1.bottom as int, dt);
}

/// Over a captcha, the captcha takes the directions: the cursor does not
/// move until the captcha is solved.
pub proof fn law_captcha_holds_cursor(
    g1: Game,
    g2: Game,
    dt: int,
    input: crate::input::Input,
    values: (u32, u32),
)
    requires
        Game::handle_input_rel(g1, g2, dt, input, values),
        g1.spec_over_captcha(),
    ensures
        g2.board.user_col == g1.board.user_col,
        g2.board.user_row == g1.board.user_row,
{
}

/// The scroll stays between 0 and a whole row: after every frame it is less
/// than one row. Where the scroll before the frame was less than a row and
/// the frame scrolls less than a row, no scroll is lost: the rows that came
/// in and the scroll left over add up to the scroll before plus the frame's.
pub proof fn law_scroll_stays_within_a_row(
    b1: Board,
    b2: Board,
    dt: int,
    boost: bool,
    values: Seq<u32>,
)
    requires
        dt >= 0,
        Board::scroll_pass(b1, b2, dt, boost, values),
    ensures
        b2.delta < SCROLL_UNIT,
        b1.delta < SCROLL_UNIT && spec_scroll(dt, boost) < SCROLL_UNIT ==> b2.delta + (if spec_reaches_row(
            b1.delta,
            dt,
            boost,
        ) {
            SCROLL_UNIT as int
        } else {
            0
        }) == b1.delta + spec_scroll(dt, boost),
{
}

proof fn lemma_runs_upto_prefix(b: Board, s: int, t: int)
    requires
        0 <= s <= t,
    ensures
        b.runs_upto(s).len() <= b.runs_upto(t).len(),
        forall|i: int| 0 <= i < b.runs_upto(s).len() ==> #[trigger] b.runs_upto(t)[i] == b.runs_upto(s)[i],
    decreases t - s,
{
    if s < t {
        lemma_runs_upto_prefix(b, s, t - 1);
        let prev = b.runs_upto(t - 1);
        assert forall|i: int| 0 <= i < prev.len() implies #[trigger] b.runs_upto(t)[i] == prev[i] by {
        }
    }
}

proof fn lemma_last_cover_at_least(ms: Seq<(bool, int, int, int)>, i: int, x: int, y: int)
    requires
        0 <= i < ms.len(),
        run_covers(ms[i], x, y),
    ensures
        last_cover(ms, x, y) >= i + 1,
    decreases ms.len(),
{
    if !run_covers(ms.last(), x, y) {
        assert(i < ms.len() - 1);
        assert(ms.drop_last()[i] == ms[i]);
        lemma_last_cover_at_least(ms.drop_last(), i, x, y);
    }
}

/// Every line of three or more resting coloured blocks of one colour, in a
/// row or in a column below the top row, is cleared: the match pass gives
/// each of its squares a match index, so each is queued for deletion.
pub proof fn law_lines_of_three_are_cleared(b: Board, horizontal: bool, x: int, y: int)
    requires
        b.wf(),
        0 <= x < NUM_COLS,
        0 <= y < NUM_ROWS,
        horizontal ==> x + 2 < NUM_COLS,
        !horizontal ==> y + 2 < NUM_ROWS - 1,
        b.cell(x, y) matches Cell::Single(_, None),
        forall|k: int| 1 <= k <= 2 ==> #[trigger] run_square(b, (horizontal, x, y, 2), k) == b.cell(x, y),
    ensures
        forall|k: int|
            0 <= k <= 2 ==> Board::spec_deleted(
                b.match_state(),
                #[trigger] crate::matches::run_square_index(b.bottom as int, (horizontal, x, y, 2), k),
            ),
{
    let bot = b.bottom as int;
    let s = x * 12 + y;
    assert(s / 12 == x && s % 12 == y);
    assert(run_square(b, (horizontal, x, y, 2), 1) == b.cell(x, y));
    assert(run_square(b, (horizontal, x, y, 2), 2) == b.cell(x, y));
    let c = b.cell(x, y);
    lemma_hrun(b, x, y, 0);
    lemma_vrun(b, x, y, 0);
    let h = b.hrun_from(x, y, 0);
    let v = b.vrun_from(x, y, 0);
    let hpart: Seq<(bool, int, int, int)> = if h >= 2 {
        seq![(true, x, y, h)]
    } else {
        Seq::empty()
    };
    let m: (bool, int, int, int);
    let j: int;
    if horizontal {
        assert(spec_matches(b.cell(x + 1, y), c));
        assert(spec_matches(b.cell(x + 2, y), c));
        assert(b.hrun_from(x, y, 0) == b.hrun_from(x, y, 1));
        assert(b.hrun_from(x, y, 1) == b.hrun_from(x, y, 2));
        lemma_hrun(b, x, y, 2);
        m = (true, x, y, h);
        j = 0;
        assert(b.runs_at(s)[0] == m);
    } else {
        assert(spec_matches(b.cell(x, y + 1), c));
        assert(spec_matches(b.cell(x, y + 2), c));
        assert(b.vrun_from(x, y, 0) == b.vrun_from(x, y, 1));
        assert(b.vrun_from(x, y, 1) == b.vrun_from(x, y, 2));
        lemma_vrun(b, x, y, 2);
        m = (false, x, y, v);
        j = hpart.len() as int;
        assert(b.runs_at(s) == hpart + seq![m]);
        assert(b.runs_at(s)[j] == m);
    }
    let ms = b.all_runs();
    let before = b.runs_upto(s);
    let i = before.len() + j;
    assert(b.runs_upto(s + 1) == before + b.runs_at(s));
    assert(b.runs_upto(s + 1)[i] == m);
    lemma_runs_upto_prefix(b, s + 1, NUM_CELLS as int);
    assert(ms[i] == m);
    b.lemma_all_runs_len();
    crate::board::lemma_scan_bijective(bot);
    assert forall|k: int| 0 <= k <= 2 implies Board::spec_deleted(
        b.match_state(),
        #[trigger] crate::matches::run_square_index(bot, (horizontal, x, y, 2), k),
    ) by {
        let (cx, cy) = if horizontal {
            (x + k, y)
        } else {
            (x, y + k)
        };
        let p = crate::matches::run_square_index(bot, (horizontal, x, y, 2), k);
        crate::matches::lemma_pos_step(bot, cx, cy);
        assert(p == phys_index(bot, cx, cy));
        let t = crate::board::scan_step_of(bot, p);
        assert(t == cx * 12 + cy);
        assert(t / 12 == cx && t % 12 == cy);
        if k > 0 {
            assert(run_square(b, (horizontal, x, y, 2), k) == c);
        }
        assert(b.cells@[p] == c);
        assert(run_covers(m, cx, cy));
        lemma_last_cover_at_least(ms, i, cx, cy);
        crate::matches::lemma_last_cover_bound(ms, cx, cy);
        assert(b.match_state()[p] == last_cover(ms, cx, cy) as u32);
    }
}

/// `c` is a block of colour `v` at rest, queued for deletion in chain
/// `chain` and just starting its wait.
pub open spec fn queued_as(c: Cell, v: u32, chain: Chain) -> bool {
    match c {
        Cell::QueuedDelete(cv, _, o, cd, ch) => cv == v && o == 0 && cd
            == crate::anims::DELETE_DELAY && ch == chain,
        _ => false,
    }
}

/// After a match pass, every square of a line of three or more resting
/// blocks of one colour is queued for deletion, keeping its colour, in the
/// chain that the pass leaves (see `law_lines_of_three_are_cleared`).
pub proof fn law_matched_line_is_queued(
    b1: Board,
    b2: Board,
    dirs: Seq<u32>,
    horizontal: bool,
    x: int,
    y: int,
    v: u32,
)
    requires
        b1.wf(),
        Board::matches_pass(b1, b2, dirs),
        0 <= x < NUM_COLS,
        0 <= y < NUM_ROWS,
        horizontal ==> x + 2 < NUM_COLS,
        !horizontal ==> y + 2 < NUM_ROWS - 1,
        b1.cell(x, y) == Cell::Single(v, None),
        forall|k: int| 1 <= k <= 2 ==> #[trigger] run_square(b1, (horizontal, x, y, 2), k) == b1.cell(x, y),
    ensures
        forall|k: int|
            0 <= k <= 2 ==> queued_as(#[trigger] run_square(b2, (horizontal, x, y, 2), k), v, b2.chain),
{
    law_lines_of_three_are_cleared(b1, horizontal, x, y);
    let bot = b1.bottom as int;
    assert forall|k: int| 0 <= k <= 2 implies queued_as(
        #[trigger] run_square(b2, (horizontal, x, y, 2), k),
        v,
        b2.chain,
    ) by {
        let p = crate::matches::run_square_index(bot, (horizontal, x, y, 2), k);
        let (cx, cy) = if horizontal {
            (x + k, y)
        } else {
            (x, y + k)
        };
        crate::matches::lemma_pos_step(bot, cx, cy);
        if k > 0 {
            assert(run_square(b1, (horizontal, x, y, 2), k) == b1.cell(x, y));
        }
        assert(b1.cells@[p] == Cell::Single(v, None));
        assert(Board::spec_deleted(b1.match_state(), p));
        assert(b2.cells@[p] == b1.spec_after_deletes(b1.match_state(), dirs, b2.chain)[p]);
    }
}

/// Setting off garbage converts whole garbage blocks and nothing else: a
/// garbage square whose id is that of garbage right of, left of, below or
/// above the matched square turns into an unanswered captcha (asking for a
/// direction from 100 to 103 where the random directions are below 4),
/// keeping its id and fall offset, wherever on the board it lies; every
/// other square stays as it is.
pub proof fn law_trigger_converts_whole_blocks(
    b1: Board,
    b2: Board,
    state: Seq<u32>,
    x: int,
    y: int,
    dirs: Seq<u32>,
)
    requires
        b1.wf(),
        state.len() == NUM_CELLS,
        0 <= x < NUM_COLS,
        0 <= y < NUM_ROWS,
        dirs.len() == NUM_CELLS,
        forall|i: int| 0 <= i < NUM_CELLS ==> #[trigger] dirs[i] < 4,
        b2.cells@ == crate::matches::spec_captchas(
            b1.cells@,
            crate::matches::spec_neighbour_ids(state, b1.bottom as int, x, y),
            dirs,
        ),
    ensures
        forall|id: u32|
            #![trigger crate::matches::spec_neighbour_ids(state, b1.bottom as int, x, y).contains(id)]
            crate::matches::spec_neighbour_ids(state, b1.bottom as int, x, y).contains(id) <==> (
            id >= START_GARBAGE_ID && exists|nx: int, ny: int|
                0 <= nx < NUM_COLS && 0 <= ny < NUM_ROWS && (nx - x) * (nx - x) + (ny - y) * (ny
                    - y) == 1 && #[trigger] state[phys_index(b1.bottom as int, nx, ny)] == id),
        forall|i: int|
            0 <= i < NUM_CELLS ==> match #[trigger] b1.cells@[i] {
                Cell::Garbage(id, o) => if crate::matches::spec_neighbour_ids(
                    state,
                    b1.bottom as int,
                    x,
                    y,
                ).contains(id) {
                    b2.cells@[i] == Cell::Captcha(id, (CAPTCHA_SPRITE_BASE + dirs[i]) as u32, o, false)
                        && CAPTCHA_SPRITE_BASE <= CAPTCHA_SPRITE_BASE + dirs[i] <= CAPTCHA_SPRITE_BASE
                        + 3
                } else {
                    b2.cells@[i] == b1.cells@[i]
                },
                _ => b2.cells@[i] == b1.cells@[i],
            },
        forall|i: int, j: int|
            0 <= i < NUM_CELLS && 0 <= j < NUM_CELLS && #[trigger] b2.cells@[i] != b1.cells@[i]
                && (#[trigger] b1.cells@[j]) is Garbage && b1.cells@[j]->Garbage_0
                == b1.cells@[i]->Garbage_0 ==> b2.cells@[j] != b1.cells@[j],
{
    let bot = b1.bottom as int;
    let ids = crate::matches::spec_neighbour_ids(state, bot, x, y);
    assert forall|id: u32| ids.contains(id) <==> (id >= START_GARBAGE_ID && exists|nx: int, ny: int|
        0 <= nx < NUM_COLS && 0 <= ny < NUM_ROWS && (nx - x) * (nx - x) + (ny - y) * (ny - y) == 1
            && #[trigger] state[phys_index(bot, nx, ny)] == id) by {
        if ids.contains(id) {
            if crate::matches::garbage_at(state, bot, x > 0, x - 1, y).contains(id) {
                assert(state[phys_index(bot, x - 1, y)] == id);
            } else if crate::matches::garbage_at(state, bot, x < NUM_COLS - 1, x + 1, y).contains(id) {
                assert(state[phys_index(bot, x + 1, y)] == id);
            } else if crate::matches::garbage_at(state, bot, y > 0, x, y - 1).contains(id) {
                assert(state[phys_index(bot, x, y - 1)] == id);
            } else {
                assert(state[phys_index(bot, x, y + 1)] == id);
            }
        }
        if id >= START_GARBAGE_ID && exists|nx: int, ny: int|
            0 <= nx < NUM_COLS && 0 <= ny < NUM_ROWS && (nx - x) * (nx - x) + (ny - y) * (ny - y)
                == 1 && #[trigger] state[phys_index(bot, nx, ny)] == id {
            let (nx, ny) = choose|nx: int, ny: int|
                0 <= nx < NUM_COLS && 0 <= ny < NUM_ROWS && (nx - x) * (nx - x) + (ny - y) * (ny
                    - y) == 1 && #[trigger] state[phys_index(bot, nx, ny)] == id;
            let dx = nx - x;
            let dy = ny - y;
            assert(dx * dx + dy * dy == 1);
            assert((dx == 1 || dx == -1) && dy == 0 || dx == 0 && (dy == 1 || dy == -1)) by (
            nonlinear_arith)
                requires
                    dx * dx + dy * dy == 1,
            ;
        }
    }
}

/// A frame of play is its steps in order: the player's input is handled;
/// the board runs a frame, and a chain that closes in it pushes the enemy's
/// next attack back; the enemy's countdown runs, and where it runs out it
/// starts again and a garbage block drops into the top row. The game stays
/// in play and asks nothing of the host, and the event channel stays.
pub proof fn law_play_frame_is_its_steps(
    g1: Game,
    g2: Game,
    input: Input,
    dt: int,
    reply: i32,
    rolls: FrameRolls,
    call: Option<HostCall>,
)
    requires
        g1.game_state == GameState::Playing,
        Game::update_rel(g1, g2, input, dt, reply, rolls, call),
    ensures
        call == None::<HostCall>,
        g2.game_state == GameState::Playing,
        g2._sender == g1._sender,
        exists|gm: Game, bu: Board, r: Option<u32>|
            {
                &&& #[trigger] Game::handle_input_rel(g1, gm, dt, input, rolls.captcha)
                &&& #[trigger] Board::update_rel(
                    gm.board,
                    bu,
                    dt,
                    gm.boost,
                    rolls.row@,
                    rolls.dirs@,
                    r,
                )
                &&& ({
                    let delayed = match r {
                        Some(a) => spec_delayed(gm.enemy.countdown, a),
                        None => gm.enemy.countdown,
                    };
                    let attacks = spec_tick_down(delayed, dt) < 0;
                    &&& g2.enemy.countdown == if attacks {
                        COOLDOWN
                    } else {
                        spec_tick_down(delayed, dt)
                    }
                    &&& g2.board.cells@ == if attacks {
                        bu.cells@.update(
                            phys_index(bu.bottom as int, rolls.garbage_start as int, NUM_ROWS - 1),
                            Cell::Garbage(bu.next_garbage_id, None),
                        ).update(
                            phys_index(bu.bottom as int, rolls.garbage_start + 1, NUM_ROWS - 1),
                            Cell::Garbage(bu.next_garbage_id, None),
                        )
                    } else {
                        bu.cells@
                    }
                    &&& g2.board.next_garbage_id == if attacks {
                        bu.next_garbage_id + 1
                    } else {
                        bu.next_garbage_id as int
                    }
                })
                &&& g2.board.same_but_cells_and_flag_and_id(bu)
                &&& g2.board.chains_valid == bu.chains_valid
                &&& g2.last_left == gm.last_left
                &&& g2.last_right == gm.last_right
                &&& g2.last_up == gm.last_up
                &&& g2.last_down == gm.last_down
                &&& g2.action_pressed == gm.action_pressed
                &&& g2.boost == gm.boost
                &&& g2.letter_index == gm.letter_index
                &&& g2.cur_letter == gm.cur_letter
            },
{
    let (gm, bu, r) = choose|gm: Game, bu: Board, r: Option<u32>|
        {
            &&& #[trigger] Game::handle_input_rel(g1, gm, dt, input, rolls.captcha)
            &&& #[trigger] Board::update_rel(
                gm.board,
                bu,
                dt,
                gm.boost,
                rolls.row@,
                rolls.dirs@,
                r,
            )
            &&& bu.next_garbage_id == gm.board.next_garbage_id
            &&& ({
                let e1 = match r {
                    Some(a) => spec_delayed(gm.enemy.countdown, a),
                    None => gm.enemy.countdown,
                };
                let attacks = spec_tick_down(e1, dt) < 0;
                &&& g2.enemy.countdown == if attacks {
                    COOLDOWN
                } else {
                    spec_tick_down(e1, dt)
                }
                &&& attacks ==> {
                    &&& g2.board.cells@ == bu.cells@.update(
                        phys_index(bu.bottom as int, rolls.garbage_start as int, NUM_ROWS - 1),
                        Cell::Garbage(bu.next_garbage_id, None),
                    ).update(
                        phys_index(bu.bottom as int, rolls.garbage_start + 1, NUM_ROWS - 1),
                        Cell::Garbage(bu.next_garbage_id, None),
                    )
                    &&& g2.board.next_garbage_id == bu.next_garbage_id + 1
                    &&& g2.board.same_but_cells_and_flag_and_id(bu)
                }
                &&& !attacks ==> g2.board == bu
            })
            &&& g2.board.wf()
            &&& g2.game_state == gm.game_state
            &&& g2.last_left == gm.last_left
            &&& g2.last_right == gm.last_right
            &&& g2.last_up == gm.last_up
            &&& g2.last_down == gm.last_down
            &&& g2.action_pressed == gm.action_pressed
            &&& g2.boost == gm.boost
            &&& g2.letter_index == gm.letter_index
            &&& g2.cur_letter == gm.cur_letter
            &&& g2._sender == gm._sender
        };
    assert(gm.game_state == g1.game_state);
    assert(gm._sender == g1._sender);
}

/// What `n` steps of `dt` make of the death animation `c` (see
/// `spec_death_step`).
pub open spec fn death_steps(c: Cell, dt: int, n: nat) -> Cell
    decreases n,
{
    if n == 0 {
        c
    } else {
        death_steps(spec_death_step(c, dt), dt, (n - 1) as nat)
    }
}

/// Frames of `dt` that it takes to run down `t`: `t / dt` rounded up.
pub open spec fn frames_for(t: int, dt: int) -> int {
    (t + dt - 1) / dt
}

/// How many steps of `dt` a death animation with wait `b` and time left `a`
/// lasts: what is left of a running animation; or else the wait (one step
/// where there is none left) and then the whole animation.
pub open spec fn death_frames(b: i64, a: i64, dt: int) -> int {
    if a > 0 {
        frames_for(a as int, dt)
    } else {
        (if b > 0 {
            frames_for(b as int, dt)
        } else {
            1
        }) + frames_for(DEATH_STEP as int, dt)
    }
}

proof fn lemma_frames_step(t: int, dt: int)
    requires
        t > 0,
        dt > 0,
    ensures
        frames_for(t, dt) >= 1,
        t <= dt ==> frames_for(t, dt) == 1,
        t > dt ==> frames_for(t - dt, dt) == frames_for(t, dt) - 1,
{
    vstd::arithmetic::div_mod::lemma_div_plus_one(t - 1, dt);
    assert(dt + (t - 1) == t + dt - 1);
    assert((t - 1) / dt >= 0) by {
        vstd::arithmetic::div_mod::lemma_div_pos_is_pos(t - 1, dt);
    }
    if t <= dt {
        vstd::arithmetic::div_mod::lemma_basic_div_specific_divisor(dt);
    }
    assert(t - dt + dt - 1 == t - 1);
}

proof fn lemma_death_steps_last(c: Cell, dt: int, n: nat)
    ensures
        death_steps(c, dt, n + 1) == spec_death_step(death_steps(c, dt, n), dt),
    decreases n,
{
    if n > 0 {
        lemma_death_steps_last(spec_death_step(c, dt), dt, (n - 1) as nat);
        assert(death_steps(c, dt, n + 1) == death_steps(spec_death_step(c, dt), dt, n));
        assert(death_steps(c, dt, n) == death_steps(spec_death_step(c, dt), dt, (n - 1) as nat));
        assert(((n - 1) as nat + 1) as nat == n);
    }
}

proof fn lemma_death_steps_cell(c: Cell, dt: int, n: nat)
    requires
        0 < dt <= u32::MAX,
    ensures
        c is DeathAnim ==> death_steps(c, dt, n) is Empty || (death_steps(c, dt, n) is DeathAnim
            && death_steps(c, dt, n)->DeathAnim_0 == c->DeathAnim_0
            && death_steps(c, dt, n)->DeathAnim_1 == c->DeathAnim_1),
        c is Empty ==> death_steps(c, dt, n) is Empty,
        c matches Cell::DeathAnim(v, o, b, a) && n >= death_frames(b, a, dt) ==> death_steps(
            c,
            dt,
            n,
        ) is Empty,
        c matches Cell::DeathAnim(v, o, b, a) && n < death_frames(b, a, dt) ==> death_steps(
            c,
            dt,
            n,
        ) is DeathAnim,
    decreases n,
{
    if n > 0 {
        let c1 = spec_death_step(c, dt);
        lemma_death_steps_cell(c1, dt, (n - 1) as nat);
        assert(death_steps(c, dt, n) == death_steps(c1, dt, (n - 1) as nat));
        lemma_frames_step(DEATH_STEP as int, dt);
        if let Cell::DeathAnim(v, o, b, a) = c {
            if a > 0 {
                lemma_frames_step(a as int, dt);
                if a - dt > 0 {
                    assert(c1 == Cell::DeathAnim(v, o, b, (a - dt) as i64));
                } else {
                    assert(c1 is Empty);
                }
            } else {
                if b > 0 {
                    lemma_frames_step(b as int, dt);
                }
                if b > 0 && b - dt > 0 {
                    assert(c1 == Cell::DeathAnim(v, o, (b - dt) as i64, a));
                } else {
                    assert(c1 == Cell::DeathAnim(v, o, 0, DEATH_STEP));
                }
            }
        }
    } else {
        if let Cell::DeathAnim(v, o, b, a) = c {
            lemma_frames_step(DEATH_STEP as int, dt);
            if a > 0 {
                lemma_frames_step(a as int, dt);
            }
            if b > 0 {
                lemma_frames_step(b as int, dt);
            }
        }
    }
}

/// A death animation runs its course: one step of `check_death_anims` after
/// another (each of `dt` microseconds) keeps the square a death animation of
/// the same colour and fall offset until it leaves an empty square, which
/// stays empty. It is empty exactly from step `death_frames` on: the steps
/// that run down what is left of a running animation, or else those that
/// run down the wait (one where none is left) and then the whole animation.
/// A square holding anything else is never changed by these steps.
pub proof fn law_death_anim_finishes(bs: Seq<Board>, dt: int, p: int)
    requires
        bs.len() >= 1,
        bs[0].wf(),
        0 < dt <= u32::MAX,
        0 <= p < NUM_CELLS,
        forall|k: int| 0 <= k < bs.len() - 1 ==> Board::death_pass(#[trigger] bs[k], bs[k + 1], dt),
    ensures
        forall|k: int|
            0 <= k < bs.len() ==> (#[trigger] bs[k]).cells@[p] == death_steps(
                bs[0].cells@[p],
                dt,
                k as nat,
            ),
        forall|k: int|
            0 <= k < bs.len() && bs[0].cells@[p] is DeathAnim ==> (#[trigger] bs[k]).cells@[p] is Empty
                || (bs[k].cells@[p] is DeathAnim && bs[k].cells@[p]->DeathAnim_0
                == bs[0].cells@[p]->DeathAnim_0 && bs[k].cells@[p]->DeathAnim_1
                == bs[0].cells@[p]->DeathAnim_1),
        forall|k: int|
            0 <= k < bs.len() && (bs[0].cells@[p] is Empty || exists|j: int| 0 <= j < k && (
            #[trigger] bs[j]).cells@[p] is Empty) ==> (#[trigger] bs[k]).cells@[p] is Empty,
        forall|k: int|
            0 <= k < bs.len() && !(bs[0].cells@[p] is DeathAnim) ==> (#[trigger] bs[k]).cells@[p]
                == bs[0].cells@[p],
        forall|k: int|
            0 <= k < bs.len() ==> (bs[0].cells@[p] matches Cell::DeathAnim(v, o, b, a) ==> ((
            #[trigger] bs[k]).cells@[p] is Empty <==> k >= death_frames(b, a, dt))),
{
    let c0 = bs[0].cells@[p];
    let bot = bs[0].bottom as int;
    lemma_scan_bijective(bot);
    assert forall|k: int| 0 <= k < bs.len() implies (#[trigger] bs[k]).cells@[p] == death_steps(
        c0,
        dt,
        k as nat,
    ) by {
        lemma_death_boards(bs, dt, p, k);
    }
    assert forall|k: int|
        0 <= k < bs.len() && (c0 is Empty || exists|j: int| 0 <= j < k && (
        #[trigger] bs[j]).cells@[p] is Empty) implies (#[trigger] bs[k]).cells@[p] is Empty by {
        if c0 is Empty {
            lemma_death_steps_cell(c0, dt, k as nat);
        } else {
            let j = choose|j: int| 0 <= j < k && (#[trigger] bs[j]).cells@[p] is Empty;
            lemma_death_steps_split(c0, dt, j as nat, (k - j) as nat);
            lemma_death_steps_cell(bs[j].cells@[p], dt, (k - j) as nat);
        }
    }
    assert forall|k: int| 0 <= k < bs.len() && c0 is DeathAnim implies (#[trigger] bs[k]).cells@[p] is Empty
        || (bs[k].cells@[p] is DeathAnim && bs[k].cells@[p]->DeathAnim_0 == c0->DeathAnim_0
        && bs[k].cells@[p]->DeathAnim_1 == c0->DeathAnim_1) by {
        lemma_death_steps_cell(c0, dt, k as nat);
    }
    assert forall|k: int| 0 <= k < bs.len() && !(c0 is DeathAnim) implies (#[trigger] bs[k]).cells@[p]
        == c0 by {
        lemma_death_steps_other(c0, dt, k as nat);
    }
    assert forall|k: int| 0 <= k < bs.len() implies (bs[0].cells@[p] matches Cell::DeathAnim(
        v,
        o,
        b,
        a,
    ) ==> ((#[trigger] bs[k]).cells@[p] is Empty <==> k >= death_frames(b, a, dt))) by {
        lemma_death_steps_cell(c0, dt, k as nat);
    }
}

proof fn lemma_death_boards(bs: Seq<Board>, dt: int, p: int, k: int)
    requires
        bs.len() >= 1,
        bs[0].wf(),
        0 <= p < NUM_CELLS,
        0 <= k < bs.len(),
        forall|k: int| 0 <= k < bs.len() - 1 ==> Board::death_pass(#[trigger] bs[k], bs[k + 1], dt),
    ensures
        bs[k].wf(),
        bs[k].bottom == bs[0].bottom,
        bs[k].cells@[p] == death_steps(bs[0].cells@[p], dt, k as nat),
    decreases k,
{
    if k > 0 {
        lemma_death_boards(bs, dt, p, k - 1);
        let bot = bs[0].bottom as int;
        lemma_scan_bijective(bot);
        assert(Board::death_pass(bs[k - 1], bs[k], dt));
        let t = scan_step_of(bot, p);
        assert(bs[k].cells@[scan_index(bot, t)] == spec_death_step(bs[k - 1].scan_cell(t), dt));
        lemma_death_steps_last(bs[0].cells@[p], dt, (k - 1) as nat);
    }
}

proof fn lemma_death_steps_split(c: Cell, dt: int, j: nat, m: nat)
    ensures
        death_steps(c, dt, j + m) == death_steps(death_steps(c, dt, j), dt, m),
    decreases j,
{
    if j > 0 {
        lemma_death_steps_split(spec_death_step(c, dt), dt, (j - 1) as nat, m);
        assert((j + m - 1) as nat == ((j - 1) as nat + m) as nat);
    }
}

proof fn lemma_death_steps_other(c: Cell, dt: int, n: nat)
    requires
        !(c is DeathAnim),
    ensures
        death_steps(c, dt, n) == c,
    decreases n,
{
    if n > 0 {
        lemma_death_steps_other(c, dt, (n - 1) as nat);
    }
}

/// What a match pass does to each square: a resting coloured block in a
/// match (a line of three or more resting blocks of its colour) is queued
/// for deletion, keeping its colour, under a match index from 1 to 999, in
/// the chain that the pass leaves; a garbage square set off by a match turns
/// into an unanswered captcha with its id and fall offset, asking for a
/// direction from 100 to 103 where the random directions are below 4; every
/// other square stays as it is. Garbage ids start at `START_GARBAGE_ID`.
pub proof fn law_match_pass_per_square(b1: Board, b2: Board, dirs: Seq<u32>, p: int)
    requires
        b1.wf(),
        Board::matches_pass(b1, b2, dirs),
        dirs.len() == NUM_CELLS,
        forall|i: int| 0 <= i < NUM_CELLS ==> #[trigger] dirs[i] < 4,
        forall|i: int|
            0 <= i < NUM_CELLS && (#[trigger] b1.cells@[i]) is Garbage ==> b1.cells@[i]->Garbage_0
                >= START_GARBAGE_ID,
        0 <= p < NUM_CELLS,
    ensures
        ({
            let t = scan_step_of(b1.bottom as int, p);
            let (x, y) = (t / (NUM_ROWS as int), t % (NUM_ROWS as int));
            ||| b2.cells@[p] == b1.cells@[p]
            ||| {
                &&& b1.cells@[p] matches Cell::Single(_, None)
                &&& b2.cells@[p] == Cell::QueuedDelete(
                    b1.cells@[p]->Single_0,
                    b2.cells@[p]->QueuedDelete_1,
                    0,
                    crate::anims::DELETE_DELAY,
                    b2.chain,
                )
                &&& 1 <= b2.cells@[p]->QueuedDelete_1 < START_GARBAGE_ID
                &&& exists|m: (bool, int, int, int)|
                    #[trigger] b1.all_runs().contains(m) && is_resting_line(b1, m) && run_covers(
                        m,
                        x,
                        y,
                    )
            }
            ||| {
                &&& b1.cells@[p] is Garbage
                &&& b2.cells@[p] == Cell::Captcha(
                    b1.cells@[p]->Garbage_0,
                    (CAPTCHA_SPRITE_BASE + dirs[p]) as u32,
                    b1.cells@[p]->Garbage_1,
                    false,
                )
                &&& CAPTCHA_SPRITE_BASE <= CAPTCHA_SPRITE_BASE + dirs[p] <= CAPTCHA_SPRITE_BASE + 3
            }
        }),
{
    let bot = b1.bottom as int;
    let state = b1.match_state();
    lemma_scan_bijective(bot);
    let t = scan_step_of(bot, p);
    assert(b2.cells@[p] == b1.spec_after_deletes(state, dirs, b2.chain)[p]);
    if Board::spec_deleted(state, p) {
        if b1.cells@[p] is Garbage {
            assert(state[p] == b1.cells@[p]->Garbage_0);
        } else {
            law_deleted_squares_were_matched(b1, p);
            let idx = state[p] as int;
            b1.lemma_all_runs_len();
            let ms = b1.all_runs();
            crate::matches::lemma_last_cover_bound(ms, t / 12, t % 12);
            assert(idx == last_cover(ms, t / 12, t % 12));
            let m = ms[idx - 1];
            law_runs_are_resting_lines(b1, idx - 1);
            assert(ms.contains(m));
            let v = b1.cells@[p]->Single_0;
            assert(b2.cells@[p] == Cell::QueuedDelete(
                v,
                state[p],
                0,
                crate::anims::DELETE_DELAY,
                b2.chain,
            ));
        }
    } else {
        match b1.cells@[p] {
            Cell::Garbage(id, o) => {
                assert(b2.cells@[p] == Cell::Garbage(id, o) || b2.cells@[p] == Cell::Captcha(
                    id,
                    (CAPTCHA_SPRITE_BASE + dirs[p]) as u32,
                    o,
                    false,
                ));
            },
            _ => {},
        }
    }
}

/// A queued delete or a death animation: a block on its way out.
pub open spec fn is_dying(c: Cell) -> bool {
    c is QueuedDelete || c is DeathAnim
}

/// The squares of column `x`, from the bottom row up.
pub open spec fn column_of(cells: Seq<Cell>, bottom: int, x: int) -> Seq<Cell> {
    Seq::new(NUM_ROWS as nat, |y: int| cells[phys_index(bottom, x, y)])
}

/// The blocks in column `x`, wherever they are in it and however far they
/// have fallen.
pub open spec fn column_blocks(cells: Seq<Cell>, bottom: int, x: int) -> Multiset<Cell> {
    blocks(column_of(cells, bottom, x))
}

/// What gravity keeps of the squares `c0` in the squares `c`: every column
/// holds the same blocks, blocks on their way out stay where they are (and
/// no other square becomes one), and a block in the bottom row stays as it
/// is.
pub open spec fn gravity_keeps(c0: Seq<Cell>, c: Seq<Cell>, bottom: int) -> bool {
    &&& c.len() == NUM_CELLS
    &&& forall|i: int| 0 <= i < NUM_CELLS && is_dying(#[trigger] c0[i]) ==> c[i] == c0[i]
    &&& forall|i: int| 0 <= i < NUM_CELLS && is_dying(#[trigger] c[i]) ==> c[i] == c0[i]
    &&& forall|x: int|
        0 <= x < NUM_COLS && !(#[trigger] cell_in(c0, bottom, x, 0) is Empty) ==> cell_in(
            c,
            bottom,
            x,
            0,
        ) == cell_in(c0, bottom, x, 0)
    &&& forall|x: int|
        0 <= x < NUM_COLS ==> #[trigger] column_blocks(c, bottom, x) == column_blocks(c0, bottom, x)
}

/// A block at `(x, y)` of squares that began as `c0` may move down: the
/// square below was no block on its way out, and in the bottom row was
/// empty.
pub open spec fn may_fall_onto(c0: Seq<Cell>, bottom: int, x: int, y: int) -> bool {
    &&& !is_dying(cell_in(c0, bottom, x, y - 1))
    &&& y == 1 ==> cell_in(c0, bottom, x, 0) is Empty
}

/// Squares of the board lie in storage, and distinct squares in distinct
/// places.
pub proof fn lemma_phys_index_injective(bottom: int, x: int, y: int, x2: int, y2: int)
    requires
        0 <= bottom < NUM_ROWS,
        0 <= x < NUM_COLS,
        0 <= y < NUM_ROWS,
        0 <= x2 < NUM_COLS,
        0 <= y2 < NUM_ROWS,
    ensures
        0 <= phys_index(bottom, x, y) < NUM_CELLS,
        phys_index(bottom, x, y) == phys_index(bottom, x2, y2) <==> x == x2 && y == y2,
{
    let r = (bottom + y) % 12;
    let r2 = (bottom + y2) % 12;
    assert(0 <= r < 12 && 0 <= r2 < 12);
    if r * 6 + x == r2 * 6 + x2 {
        assert(r == r2 && x == x2) by (nonlinear_arith)
            requires
                r * 6 + x == r2 * 6 + x2,
                0 <= x < 6,
                0 <= x2 < 6,
        ;
        assert(y == y2);
    }
    assert(0 <= r * 6 + x < 72) by (nonlinear_arith)
        requires
            0 <= r < 12,
            0 <= x < 6,
    ;
}

proof fn lemma_keeps_update(c0: Seq<Cell>, c: Seq<Cell>, bottom: int, x: int, y: int, n: Cell)
    requires
        0 <= bottom < NUM_ROWS,
        c0.len() == NUM_CELLS,
        gravity_keeps(c0, c, bottom),
        0 <= x < NUM_COLS,
        1 <= y < NUM_ROWS,
        !is_dying(c[phys_index(bottom, x, y)]),
        !is_dying(n),
        block_of(n) == block_of(c[phys_index(bottom, x, y)]),
    ensures
        gravity_keeps(c0, c.update(phys_index(bottom, x, y), n), bottom),
{
    let i = phys_index(bottom, x, y);
    let c2 = c.update(i, n);
    lemma_phys_index_injective(bottom, x, y, x, y);
    assert forall|x2: int| 0 <= x2 < NUM_COLS implies #[trigger] column_blocks(c2, bottom, x2)
        == column_blocks(c0, bottom, x2) by {
        if x2 == x {
            assert(column_of(c2, bottom, x) =~= column_of(c, bottom, x).update(y, n)) by {
                assert forall|y2: int| 0 <= y2 < NUM_ROWS implies column_of(c2, bottom, x)[y2]
                    == column_of(c, bottom, x).update(y, n)[y2] by {
                    lemma_phys_index_injective(bottom, x, y, x, y2);
                }
            }
            lemma_update_same_block(column_of(c, bottom, x), y, n);
            assert(column_blocks(c, bottom, x) == column_blocks(c0, bottom, x));
        } else {
            assert(column_of(c2, bottom, x2) =~= column_of(c, bottom, x2)) by {
                assert forall|y2: int| 0 <= y2 < NUM_ROWS implies column_of(c2, bottom, x2)[y2]
                    == column_of(c, bottom, x2)[y2] by {
                    lemma_phys_index_injective(bottom, x, y, x2, y2);
                }
            }
            assert(column_blocks(c, bottom, x2) == column_blocks(c0, bottom, x2));
        }
    }
    assert forall|x2: int|
        0 <= x2 < NUM_COLS && !(#[trigger] cell_in(c0, bottom, x2, 0) is Empty) implies cell_in(
        c2,
        bottom,
        x2,
        0,
    ) == cell_in(c0, bottom, x2, 0) by {
        lemma_phys_index_injective(bottom, x, y, x2, 0);
    }
}

proof fn lemma_keeps_swap_down(c0: Seq<Cell>, c: Seq<Cell>, bottom: int, x: int, y: int)
    requires
        0 <= bottom < NUM_ROWS,
        c0.len() == NUM_CELLS,
        gravity_keeps(c0, c, bottom),
        0 <= x < NUM_COLS,
        1 <= y < NUM_ROWS,
        !is_dying(c[phys_index(bottom, x, y)]),
        !is_dying(c[phys_index(bottom, x, y - 1)]),
        y == 1 ==> cell_in(c0, bottom, x, 0) is Empty,
    ensures
        gravity_keeps(c0, swap_down_in(c, bottom, x, y), bottom),
{
    let i0 = phys_index(bottom, x, y);
    let i1 = phys_index(bottom, x, y - 1);
    lemma_phys_index_injective(bottom, x, y, x, y - 1);
    lemma_phys_index_injective(bottom, x, y, x, y);
    lemma_phys_index_injective(bottom, x, y - 1, x, y - 1);
    if !Board::swap_refused(c[i0], c[i1], false) {
        let c2 = Board::swapped(c, i0, i1);
        assert forall|x2: int| 0 <= x2 < NUM_COLS implies #[trigger] column_blocks(c2, bottom, x2)
            == column_blocks(c0, bottom, x2) by {
            let col = column_of(c, bottom, x2);
            if x2 == x {
                assert(column_of(c2, bottom, x) =~= Board::swapped(col, y, y - 1)) by {
                    assert forall|y2: int| 0 <= y2 < NUM_ROWS implies column_of(c2, bottom, x)[y2]
                        == Board::swapped(col, y, y - 1)[y2] by {
                        lemma_phys_index_injective(bottom, x, y, x, y2);
                        lemma_phys_index_injective(bottom, x, y - 1, x, y2);
                    }
                }
                lemma_swap_same_blocks(col, y, y - 1);
                assert(column_blocks(c, bottom, x) == column_blocks(c0, bottom, x));
            } else {
                assert(column_of(c2, bottom, x2) =~= col) by {
                    assert forall|y2: int| 0 <= y2 < NUM_ROWS implies column_of(c2, bottom, x2)[y2]
                        == col[y2] by {
                        lemma_phys_index_injective(bottom, x, y, x2, y2);
                        lemma_phys_index_injective(bottom, x, y - 1, x2, y2);
                    }
                }
                assert(column_blocks(c, bottom, x2) == column_blocks(c0, bottom, x2));
            }
        }
        assert forall|x2: int|
            0 <= x2 < NUM_COLS && !(#[trigger] cell_in(c0, bottom, x2, 0) is Empty) implies cell_in(
            c2,
            bottom,
            x2,
            0,
        ) == cell_in(c0, bottom, x2, 0) by {
            lemma_phys_index_injective(bottom, x, y, x2, 0);
            lemma_phys_index_injective(bottom, x, y - 1, x2, 0);
        }
    }
}

/// Every note in `entries` that can fall lies over a square that it may fall
/// onto.
pub open spec fn entries_may_fall(c0: Seq<Cell>, bottom: int, entries: Seq<GravityEntry>) -> bool {
    forall|j: int|
        0 <= j < entries.len() && (#[trigger] entries[j]).3 ==> may_fall_onto(
            c0,
            bottom,
            entries[j].1,
            entries[j].2,
        )
}

/// Every falling move in `moves` lies over a square that it may fall onto.
pub open spec fn moves_may_fall(c0: Seq<Cell>, bottom: int, moves: Seq<(int, int, bool)>) -> bool {
    forall|j: int|
        0 <= j < moves.len() && (#[trigger] moves[j]).2 ==> may_fall_onto(
            c0,
            bottom,
            moves[j].0,
            moves[j].1,
        )
}

proof fn lemma_below_may_fall(c0: Seq<Cell>, c: Seq<Cell>, bottom: int, x: int, y: int)
    requires
        0 <= bottom < NUM_ROWS,
        c0.len() == NUM_CELLS,
        gravity_keeps(c0, c, bottom),
        0 <= x < NUM_COLS,
        1 <= y < NUM_ROWS,
        below_empty_in(c, bottom, x, y),
    ensures
        may_fall_onto(c0, bottom, x, y),
        !is_dying(c[phys_index(bottom, x, y - 1)]),
{
    lemma_phys_index_injective(bottom, x, y - 1, x, y - 1);
    let i1 = phys_index(bottom, x, y - 1);
    if is_dying(c0[i1]) {
        assert(c[i1] == c0[i1]);
    }
    if y == 1 && !(cell_in(c0, bottom, x, 0) is Empty) {
        assert(cell_in(c, bottom, x, 0) == cell_in(c0, bottom, x, 0));
    }
}

proof fn lemma_keeps_settle_step(c0: Seq<Cell>, c: Seq<Cell>, bottom: int, x: int, y: int, dt: int)
    requires
        0 <= bottom < NUM_ROWS,
        c0.len() == NUM_CELLS,
        gravity_keeps(c0, c, bottom),
        0 <= x < NUM_COLS,
        1 <= y < NUM_ROWS,
    ensures
        gravity_keeps(c0, settle_step(c, bottom, x, y, dt).0, bottom),
        entries_may_fall(c0, bottom, settle_step(c, bottom, x, y, dt).2),
{
    let i = phys_index(bottom, x, y);
    lemma_phys_index_injective(bottom, x, y, x, y - 1);
    lemma_phys_index_injective(bottom, x, y, x, y);
    let st = settle_step(c, bottom, x, y, dt);
    if below_empty_in(c, bottom, x, y) {
        lemma_below_may_fall(c0, c, bottom, x, y);
        match c[i] {
            Cell::Single(v, o) => {
                let (o2, moves) = crate::gravity::spec_fall(o, dt);
                lemma_keeps_update(c0, c, bottom, x, y, Cell::Single(v, o2));
                if moves {
                    let cs = c.update(i, Cell::Single(v, o2));
                    assert(cs[phys_index(bottom, x, y - 1)] == c[phys_index(bottom, x, y - 1)]);
                    lemma_keeps_swap_down(c0, cs, bottom, x, y);
                }
            },
            _ => {},
        }
    } else {
        match c[i] {
            Cell::Single(v, _) => {
                lemma_keeps_update(c0, c, bottom, x, y, Cell::Single(v, None));
            },
            _ => {},
        }
    }
}

proof fn lemma_keeps_settle_scan(c0: Seq<Cell>, bottom: int, dt: int, g: int)
    requires
        0 <= bottom < NUM_ROWS,
        c0.len() == NUM_CELLS,
        0 <= g <= SETTLE_STEPS,
    ensures
        gravity_keeps(c0, settle_scan(c0, bottom, dt, g).0, bottom),
        entries_may_fall(c0, bottom, settle_scan(c0, bottom, dt, g).2),
    decreases g,
{
    if g > 0 {
        lemma_keeps_settle_scan(c0, bottom, dt, g - 1);
        let prev = settle_scan(c0, bottom, dt, g - 1);
        let x = (g - 1) % 6;
        let y = (g - 1) / 6 + 1;
        lemma_keeps_settle_step(c0, prev.0, bottom, x, y, dt);
        lemma_settle_step_same_blocks(prev.0, bottom, x, y, dt);
        let st = settle_step(prev.0, bottom, x, y, dt);
        let es = prev.2 + st.2;
        assert forall|j: int| 0 <= j < es.len() && (#[trigger] es[j]).3 implies may_fall_onto(
            c0,
            bottom,
            es[j].1,
            es[j].2,
        ) by {
            if j < prev.2.len() {
                assert(es[j] == prev.2[j]);
            } else {
                assert(es[j] == st.2[j - prev.2.len()]);
            }
        }
    } else {
        assert(column_blocks(c0, bottom, 0) == column_blocks(c0, bottom, 0));
    }
}

proof fn lemma_group_moves_may_fall(c0: Seq<Cell>, bottom: int, entries: Seq<GravityEntry>, id: u32, n: int)
    requires
        entries_may_fall(c0, bottom, entries),
        n <= entries.len(),
    ensures
        moves_may_fall(c0, bottom, group_moves(entries, id, n)),
    decreases n,
{
    if n > 0 {
        lemma_group_moves_may_fall(c0, bottom, entries, id, n - 1);
        let prev = group_moves(entries, id, n - 1);
        let all = group_moves(entries, id, n);
        assert forall|j: int| 0 <= j < all.len() && (#[trigger] all[j]).2 implies may_fall_onto(
            c0,
            bottom,
            all[j].0,
            all[j].1,
        ) by {
            if j < prev.len() {
                assert(all[j] == prev[j]);
            } else {
                assert(entries[n - 1].0 == id);
                assert(crate::gravity::group_falling(entries, id));
                assert(entries[n - 1].3);
            }
        }
    }
}

proof fn lemma_all_moves_may_fall(c0: Seq<Cell>, bottom: int, entries: Seq<GravityEntry>, ids: Seq<u32>, k: int)
    requires
        entries_may_fall(c0, bottom, entries),
        k <= ids.len(),
    ensures
        moves_may_fall(c0, bottom, all_moves(entries, ids, k)),
    decreases k,
{
    if k > 0 {
        lemma_all_moves_may_fall(c0, bottom, entries, ids, k - 1);
        lemma_group_moves_may_fall(c0, bottom, entries, ids[k - 1], entries.len() as int);
        let prev = all_moves(entries, ids, k - 1);
        let g = group_moves(entries, ids[k - 1], entries.len() as int);
        let all = all_moves(entries, ids, k);
        assert forall|j: int| 0 <= j < all.len() && (#[trigger] all[j]).2 implies may_fall_onto(
            c0,
            bottom,
            all[j].0,
            all[j].1,
        ) by {
            if j < prev.len() {
                assert(all[j] == prev[j]);
            } else {
                assert(all[j] == g[j - prev.len()]);
            }
        }
    }
}

proof fn lemma_keeps_apply_moves(
    c0: Seq<Cell>,
    c: Seq<Cell>,
    bottom: int,
    moves: Seq<(int, int, bool)>,
    dt: int,
    k: int,
)
    requires
        0 <= bottom < NUM_ROWS,
        c0.len() == NUM_CELLS,
        gravity_keeps(c0, c, bottom),
        moves_on_board(moves),
        moves_may_fall(c0, bottom, moves),
        0 <= k <= moves.len(),
    ensures
        gravity_keeps(c0, apply_moves(c, bottom, moves, dt, k), bottom),
    decreases k,
{
    if k > 0 {
        lemma_keeps_apply_moves(c0, c, bottom, moves, dt, k - 1);
        let prev = apply_moves(c, bottom, moves, dt, k - 1);
        let (x, y, falling) = moves[k - 1];
        let i = phys_index(bottom, x, y);
        let i1 = phys_index(bottom, x, y - 1);
        lemma_phys_index_injective(bottom, x, y, x, y - 1);
        lemma_phys_index_injective(bottom, x, y - 1, x, y - 1);
        if falling {
            assert(may_fall_onto(c0, bottom, x, y));
            if is_dying(prev[i1]) {
                assert(prev[i1] == c0[i1]);
            }
        }
        match prev[i] {
            Cell::Garbage(id, o) => {
                if falling {
                    let (o2, mv) = crate::gravity::spec_fall(o, dt);
                    lemma_keeps_update(c0, prev, bottom, x, y, Cell::Garbage(id, o2));
                    if mv {
                        let cs = prev.update(i, Cell::Garbage(id, o2));
                        assert(cs[i1] == prev[i1]);
                        lemma_keeps_swap_down(c0, cs, bottom, x, y);
                    }
                } else {
                    lemma_keeps_update(c0, prev, bottom, x, y, Cell::Garbage(id, None));
                }
            },
            Cell::Captcha(id, sp, o, m) => {
                if falling {
                    let (o2, mv) = crate::gravity::spec_fall(o, dt);
                    lemma_keeps_update(c0, prev, bottom, x, y, Cell::Captcha(id, sp, o2, m));
                    if mv {
                        let cs = prev.update(i, Cell::Captcha(id, sp, o2, m));
                        assert(cs[i1] == prev[i1]);
                        lemma_keeps_swap_down(c0, cs, bottom, x, y);
                    }
                } else {
                    lemma_keeps_update(c0, prev, bottom, x, y, Cell::Captcha(id, sp, None, m));
                }
            },
            _ => {},
        }
    }
}

/// Gravity moves blocks only up and down their own columns: each column
/// holds the same blocks before and after (fall offsets forgotten). Blocks
/// on their way out (queued deletes and death animations) stay where they
/// are, and no other square turns into one; a block in the bottom row stays
/// as it is. The cursor, the scroll, the swap marks, the chain and the next
/// garbage id are untouched.
pub proof fn law_gravity_keeps_columns(b1: Board, b2: Board, dt: int)
    requires
        b1.wf(),
        Board::gravity_pass(b1, b2, dt),
    ensures
        gravity_keeps(b1.cells@, b2.cells@, b1.bottom as int),
        b2.bottom == b1.bottom,
        b2.user_row == b1.user_row,
        b2.user_col == b1.user_col,
        b2.delta == b1.delta,
        b2.just_touched@ == b1.just_touched@,
        b2.chain == b1.chain,
        b2.next_garbage_id == b1.next_garbage_id,
{
    let cells = b1.cells@;
    let bottom = b1.bottom as int;
    lemma_keeps_settle_scan(cells, bottom, dt, SETTLE_STEPS as int);
    lemma_settle_scan_same_blocks(cells, bottom, dt, SETTLE_STEPS as int);
    let first = settle_scan(cells, bottom, dt, SETTLE_STEPS as int);
    let ids = group_ids(first.2, first.2.len() as int);
    lemma_all_moves_on_board(first.2, ids, ids.len() as int);
    lemma_all_moves_may_fall(cells, bottom, first.2, ids, ids.len() as int);
    let moves = all_moves(first.2, ids, ids.len() as int);
    lemma_keeps_apply_moves(cells, first.0, bottom, moves, dt, moves.len() as int);
}

/// `c` is a queued delete whose chain runs.
pub open spec fn chain_runs(c: Cell) -> bool {
    c matches Cell::QueuedDelete(_, _, _, _, ch) && ch.spec_value() is Some
}

/// `c` is a queued delete of match `id` whose chain runs with multiplier
/// `v`.
pub open spec fn chained_delete(c: Cell, id: u32, v: u32) -> bool {
    c matches Cell::QueuedDelete(_, i, _, _, ch) && i == id && ch.spec_value() == Some(v)
}

proof fn lemma_multipliers(b: Board, dim: u32, dpx: u32, k: int)
    requires
        0 <= k <= NUM_CELLS,
    ensures
        ({
            let ms = spec_multipliers(b, dim, dpx, k);
            &&& forall|i: int, j: int| 0 <= i < j < ms.len() ==> (#[trigger] ms[i]).0 != (#[trigger] ms[j]).0
            &&& forall|s: int|
                0 <= s < k && chain_runs(#[trigger] b.cell(s % (NUM_COLS as int), s / (NUM_COLS as int))) ==> exists|j: int|
                    0 <= j < ms.len() && (#[trigger] ms[j]).0 == b.cell(
                        s % (NUM_COLS as int),
                        s / (NUM_COLS as int),
                    )->QueuedDelete_1
            &&& forall|j: int|
                0 <= j < ms.len() ==> exists|s: int|
                    0 <= s < k && chained_delete(
                        #[trigger] b.cell(s % (NUM_COLS as int), s / (NUM_COLS as int)),
                        (#[trigger] ms[j]).0,
                        ms[j].3,
                    )
        }),
    decreases k,
{
    if k > 0 {
        lemma_multipliers(b, dim, dpx, k - 1);
        let prev = spec_multipliers(b, dim, dpx, k - 1);
        let ms = spec_multipliers(b, dim, dpx, k);
        let x = (k - 1) % 6;
        let y = (k - 1) / 6;
        let c = b.cell(x, y);
        assert forall|j: int| 0 <= j < prev.len() implies ms[j] == prev[j] by {}
        assert forall|s: int|
            0 <= s < k && chain_runs(#[trigger] b.cell(s % (NUM_COLS as int), s / (NUM_COLS as int))) implies exists|j: int|
            0 <= j < ms.len() && (#[trigger] ms[j]).0 == b.cell(
                s % (NUM_COLS as int),
                s / (NUM_COLS as int),
            )->QueuedDelete_1 by {
            if s < k - 1 {
                let j = choose|j: int|
                    0 <= j < prev.len() && (#[trigger] prev[j]).0 == b.cell(
                        s % (NUM_COLS as int),
                        s / (NUM_COLS as int),
                    )->QueuedDelete_1;
                assert(ms[j] == prev[j]);
            } else {
                if ms.len() > prev.len() {
                    assert(ms[prev.len() as int].0 == c->QueuedDelete_1);
                }
            }
        }
        assert forall|j: int| 0 <= j < ms.len() implies exists|s: int|
            0 <= s < k && chained_delete(
                #[trigger] b.cell(s % (NUM_COLS as int), s / (NUM_COLS as int)),
                (#[trigger] ms[j]).0,
                ms[j].3,
            ) by {
            if j < prev.len() {
                assert(ms[j] == prev[j]);
                let s = choose|s: int|
                    0 <= s < k - 1 && chained_delete(
                        #[trigger] b.cell(s % (NUM_COLS as int), s / (NUM_COLS as int)),
                        prev[j].0,
                        prev[j].3,
                    );
                assert(0 <= s < k);
            } else {
                assert(chained_delete(
                    b.cell((k - 1) % (NUM_COLS as int), (k - 1) / (NUM_COLS as int)),
                    ms[j].0,
                    ms[j].3,
                ));
            }
        }
    }
}

/// The chain multipliers that a frame shows: one for each match whose chain
/// runs, never two for one match index, and each shows the multiplier of a
/// queued delete of that match.
pub proof fn law_multiplier_once_per_match(b: Board, dim: u32, dpx: u32)
    ensures
        ({
            let ms = spec_multipliers(b, dim, dpx, NUM_CELLS as int);
            &&& forall|i: int, j: int| 0 <= i < j < ms.len() ==> (#[trigger] ms[i]).0 != (#[trigger] ms[j]).0
            &&& forall|x: int, y: int|
                0 <= x < NUM_COLS && 0 <= y < NUM_ROWS && chain_runs(#[trigger] b.cell(x, y)) ==> exists|j: int| 0 <= j < ms.len() && (#[trigger] ms[j]).0 == b.cell(x, y)->QueuedDelete_1
            &&& forall|j: int|
                0 <= j < ms.len() ==> exists|x: int, y: int|
                    0 <= x < NUM_COLS && 0 <= y < NUM_ROWS && chained_delete(
                        #[trigger] b.cell(x, y),
                        (#[trigger] ms[j]).0,
                        ms[j].3,
                    )
        }),
{
    lemma_multipliers(b, dim, dpx, NUM_CELLS as int);
    let ms = spec_multipliers(b, dim, dpx, NUM_CELLS as int);
    assert forall|x: int, y: int|
        0 <= x < NUM_COLS && 0 <= y < NUM_ROWS && chain_runs(#[trigger] b.cell(x, y)) implies exists|j: int| 0 <= j < ms.len() && (#[trigger] ms[j]).0 == b.cell(x, y)->QueuedDelete_1 by {
        let s = y * 6 + x;
        assert(s % 6 == x && s / 6 == y);
        assert(0 <= s < NUM_CELLS);
    }
    assert forall|j: int| 0 <= j < ms.len() implies exists|x: int, y: int|
        0 <= x < NUM_COLS && 0 <= y < NUM_ROWS && chained_delete(
            #[trigger] b.cell(x, y),
            (#[trigger] ms[j]).0,
            ms[j].3,
        ) by {
        let s = choose|s: int|
            0 <= s < NUM_CELLS && chained_delete(
                #[trigger] b.cell(s % (NUM_COLS as int), s / (NUM_COLS as int)),
                ms[j].0,
                ms[j].3,
            );
        assert(0 <= s % 6 < 6 && 0 <= s / 6 < 12);
    }
}

} // verus!
