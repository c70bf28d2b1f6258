use vstd::prelude::*;
use crate::board::{Board, NUM_CELLS, NUM_COLS, NUM_ROWS, cell_in, phys_index};
use crate::cell::Cell;
use crate::gravity::{
    GravityEntry, FALL_SPEED, SETTLE_STEPS, all_moves, apply_moves, group_falling, group_ids,
    group_moves, settle_scan, settle_step, spec_gravity,
};
use crate::laws::lemma_phys_index_injective;
use crate::time::CELL_UNIT;

verus! {

/// Square `c` belongs to the garbage block `id` (as garbage or as a
/// captcha) and its fall reaches a whole square in `dt` microseconds.
pub open spec fn falls_a_square(c: Cell, id: u32, dt: int) -> bool {
    match c {
        Cell::Garbage(i, o) => i == id && (if o is Some {
            o->Some_0 as int
        } else {
            0
        }) + FALL_SPEED * dt >= CELL_UNIT,
        Cell::Captcha(i, _, o, _) => i == id && (if o is Some {
            o->Some_0 as int
        } else {
            0
        }) + FALL_SPEED * dt >= CELL_UNIT,
        _ => false,
    }
}

/// Square `c` one square lower, its fall started over.
pub open spec fn landed(c: Cell) -> Cell {
    match c {
        Cell::Garbage(i, _) => Cell::Garbage(i, Some(0)),
        Cell::Captcha(i, s, _, m) => Cell::Captcha(i, s, Some(0), m),
        _ => c,
    }
}

/// The squares `c0` hold nothing but garbage block `id` in row `y0`, every
/// square of which falls a whole square in `dt`.
pub open spec fn lone_block(c0: Seq<Cell>, bottom: int, y0: int, id: u32, dt: int) -> bool {
    &&& c0.len() == NUM_CELLS
    &&& 0 <= bottom < NUM_ROWS
    &&& 1 <= y0 < NUM_ROWS
    &&& forall|x: int, y: int|
        0 <= x < NUM_COLS && 0 <= y < NUM_ROWS ==> if y == y0 {
            #[trigger] cell_in(c0, bottom, x, y) is Empty || falls_a_square(
                cell_in(c0, bottom, x, y),
                id,
                dt,
            )
        } else {
            cell_in(c0, bottom, x, y) is Empty
        }
}

/// The first pass notes the block's squares, left to right, and changes
/// nothing.
pub open spec fn notes_ok(c0: Seq<Cell>, bottom: int, y0: int, id: u32, g: int, es: Seq<GravityEntry>) -> bool {
    &&& forall|j: int|
        0 <= j < es.len() ==> (#[trigger] es[j]).0 == id && es[j].2 == y0 && es[j].3 && 0 <= es[j].1
            < NUM_COLS && !(cell_in(c0, bottom, es[j].1, y0) is Empty) && (y0 - 1) * 6 + es[j].1 < g
    &&& forall|i: int, j: int| 0 <= i < j < es.len() ==> (#[trigger] es[i]).1 < (#[trigger] es[j]).1
    &&& forall|x: int|
        0 <= x < NUM_COLS && (y0 - 1) * 6 + x < g && !(#[trigger] cell_in(c0, bottom, x, y0) is Empty)
            ==> exists|j: int| 0 <= j < es.len() && (#[trigger] es[j]).1 == x
}

proof fn lemma_scan_notes(c0: Seq<Cell>, bottom: int, y0: int, id: u32, dt: int, g: int)
    requires
        lone_block(c0, bottom, y0, id, dt),
        0 <= g <= SETTLE_STEPS,
    ensures
        settle_scan(c0, bottom, dt, g).0 == c0,
        notes_ok(c0, bottom, y0, id, g, settle_scan(c0, bottom, dt, g).2),
    decreases g,
{
    if g > 0 {
        lemma_scan_notes(c0, bottom, y0, id, dt, g - 1);
        let prev = settle_scan(c0, bottom, dt, g - 1);
        let x = (g - 1) % 6;
        let y = (g - 1) / 6 + 1;
        assert(0 <= x < 6 && 1 <= y < 12);
        assert(g - 1 == (y - 1) * 6 + x);
        let st = settle_step(c0, bottom, x, y, dt);
        let c = cell_in(c0, bottom, x, y);
        assert(c is Empty || y == y0);
        if y == y0 && !(c is Empty) {
            assert(cell_in(c0, bottom, x, y0 - 1) is Empty);
            assert(st.2 == seq![(id, x, y0, true)]);
        } else {
            assert(st.2 == Seq::<GravityEntry>::empty());
        }
        assert(st.0 == c0);
        let es = prev.2 + st.2;
        assert forall|j: int| 0 <= j < es.len() implies (#[trigger] es[j]).0 == id && es[j].2 == y0
            && es[j].3 && 0 <= es[j].1 < NUM_COLS && !(cell_in(c0, bottom, es[j].1, y0) is Empty) && (
            y0 - 1) * 6 + es[j].1 < g by {
            if j < prev.2.len() {
                assert(es[j] == prev.2[j]);
            } else {
                assert(es[j] == st.2[j - prev.2.len()]);
            }
        }
        assert forall|i: int, j: int| 0 <= i < j < es.len() implies (#[trigger] es[i]).1 < (
        #[trigger] es[j]).1 by {
            if j < prev.2.len() {
                assert(es[i] == prev.2[i] && es[j] == prev.2[j]);
            } else {
                assert(es[i] == prev.2[i]);
                assert(es[j] == st.2[j - prev.2.len()]);
                assert((y0 - 1) * 6 + prev.2[i].1 < g - 1);
            }
        }
        assert forall|x2: int|
            0 <= x2 < NUM_COLS && (y0 - 1) * 6 + x2 < g && !(#[trigger] cell_in(c0, bottom, x2, y0) is Empty)
                implies exists|j: int| 0 <= j < es.len() && (#[trigger] es[j]).1 == x2 by {
            if (y0 - 1) * 6 + x2 < g - 1 {
                let j = choose|j: int| 0 <= j < prev.2.len() && (#[trigger] prev.2[j]).1 == x2;
                assert(es[j] == prev.2[j]);
            } else {
                assert(x2 == x && y == y0);
                assert(es[prev.2.len() as int] == st.2[0]);
            }
        }
    }
}

proof fn lemma_one_group(es: Seq<GravityEntry>, id: u32, n: int)
    requires
        forall|j: int| 0 <= j < es.len() ==> (#[trigger] es[j]).0 == id,
        0 <= n <= es.len(),
    ensures
        group_ids(es, n) == if n > 0 {
            seq![id]
        } else {
            Seq::<u32>::empty()
        },
    decreases n,
{
    if n > 0 {
        lemma_one_group(es, id, n - 1);
        if n > 1 {
            assert(seq![id].contains(id)) by {
                assert(seq![id][0] == id);
            }
        }
    }
}

proof fn lemma_block_moves(es: Seq<GravityEntry>, id: u32, n: int)
    requires
        forall|j: int| 0 <= j < es.len() ==> (#[trigger] es[j]).0 == id && es[j].3,
        0 <= n <= es.len(),
    ensures
        group_moves(es, id, n).len() == n,
        forall|j: int|
            0 <= j < n ==> #[trigger] group_moves(es, id, n)[j] == (es[j].1, es[j].2, true),
    decreases n,
{
    if n > 0 {
        lemma_block_moves(es, id, n - 1);
        assert(group_falling(es, id));
        let prev = group_moves(es, id, n - 1);
        let all = group_moves(es, id, n);
        assert forall|j: int| 0 <= j < n implies #[trigger] all[j] == (es[j].1, es[j].2, true) by {
            if j < n - 1 {
                assert(all[j] == prev[j]);
            }
        }
    }
}

/// What the block's moves have made of `c0` after its first `k` squares
/// (those in the columns `es[..k]`).
pub open spec fn moved_upto(c0: Seq<Cell>, bottom: int, y0: int, es: Seq<GravityEntry>, k: int, c: Seq<Cell>) -> bool {
    &&& c.len() == NUM_CELLS
    &&& forall|x: int, y: int|
        0 <= x < NUM_COLS && 0 <= y < NUM_ROWS ==> #[trigger] cell_in(c, bottom, x, y) == if exists|j: int|
            0 <= j < k && (#[trigger] es[j]).1 == x {
            if y == y0 {
                Cell::Empty
            } else if y == y0 - 1 {
                landed(cell_in(c0, bottom, x, y0))
            } else {
                cell_in(c0, bottom, x, y)
            }
        } else {
            cell_in(c0, bottom, x, y)
        }
}

proof fn lemma_apply_block(
    c0: Seq<Cell>,
    bottom: int,
    y0: int,
    id: u32,
    dt: int,
    es: Seq<GravityEntry>,
    moves: Seq<(int, int, bool)>,
    k: int,
)
    requires
        lone_block(c0, bottom, y0, id, dt),
        notes_ok(c0, bottom, y0, id, SETTLE_STEPS as int, es),
        moves.len() == es.len(),
        forall|j: int| 0 <= j < es.len() ==> #[trigger] moves[j] == (es[j].1, es[j].2, true),
        0 <= k <= moves.len(),
    ensures
        moved_upto(c0, bottom, y0, es, k, apply_moves(c0, bottom, moves, dt, k)),
    decreases k,
{
    if k == 0 {
        assert forall|x: int, y: int| 0 <= x < NUM_COLS && 0 <= y < NUM_ROWS implies #[trigger] cell_in(
            c0,
            bottom,
            x,
            y,
        ) == cell_in(c0, bottom, x, y) by {}
    } else {
        lemma_apply_block(c0, bottom, y0, id, dt, es, moves, k - 1);
        let prev = apply_moves(c0, bottom, moves, dt, k - 1);
        let e = es[k - 1];
        let x0 = e.1;
        assert(moves[k - 1] == (x0, y0, true));
        assert(!(exists|j: int| 0 <= j < k - 1 && (#[trigger] es[j]).1 == x0)) by {
            if exists|j: int| 0 <= j < k - 1 && (#[trigger] es[j]).1 == x0 {
                let j = choose|j: int| 0 <= j < k - 1 && (#[trigger] es[j]).1 == x0;
                assert(es[j].1 < es[k - 1].1);
            }
        }
        let i0 = phys_index(bottom, x0, y0);
        let i1 = phys_index(bottom, x0, y0 - 1);
        lemma_phys_index_injective(bottom, x0, y0, x0, y0 - 1);
        lemma_phys_index_injective(bottom, x0, y0, x0, y0);
        lemma_phys_index_injective(bottom, x0, y0 - 1, x0, y0 - 1);
        assert(cell_in(prev, bottom, x0, y0) == cell_in(c0, bottom, x0, y0));
        assert(cell_in(prev, bottom, x0, y0 - 1) == cell_in(c0, bottom, x0, y0 - 1));
        let c = cell_in(c0, bottom, x0, y0);
        assert(falls_a_square(c, id, dt));
        assert(cell_in(c0, bottom, x0, y0 - 1) is Empty);
        let next = apply_moves(c0, bottom, moves, dt, k);
        assert(next == crate::gravity::apply_move(prev, bottom, moves[k - 1], dt));
        let cs = prev.update(i0, landed(c));
        assert(next == Board::swapped(cs, i0, i1));
        assert forall|x: int, y: int| 0 <= x < NUM_COLS && 0 <= y < NUM_ROWS implies #[trigger] cell_in(
            next,
            bottom,
            x,
            y,
        ) == if exists|j: int| 0 <= j < k && (#[trigger] es[j]).1 == x {
            if y == y0 {
                Cell::Empty
            } else if y == y0 - 1 {
                landed(cell_in(c0, bottom, x, y0))
            } else {
                cell_in(c0, bottom, x, y)
            }
        } else {
            cell_in(c0, bottom, x, y)
        } by {
            lemma_phys_index_injective(bottom, x0, y0, x, y);
            lemma_phys_index_injective(bottom, x0, y0 - 1, x, y);
            if x == x0 {
                assert(es[k - 1].1 == x);
            } else {
                if exists|j: int| 0 <= j < k && (#[trigger] es[j]).1 == x {
                    let j = choose|j: int| 0 <= j < k && (#[trigger] es[j]).1 == x;
                    assert(j < k - 1);
                }
            }
            assert(cell_in(prev, bottom, x, y) == prev[phys_index(bottom, x, y)]);
        }
    }
}

/// A garbage block, or the captchas it turned into, falls like a coloured
/// block: on a board that holds nothing but one such block in one row above
/// the bottom, every square of which falls a whole square in this pass (its
/// fall offset plus four squares a second for `dt` reaches a whole square),
/// each square of the block ends one row lower with its fall started over,
/// and every other square is empty.
pub proof fn law_lone_block_falls_a_row(b1: Board, b2: Board, dt: int, y0: int, id: u32)
    requires
        b1.wf(),
        Board::gravity_pass(b1, b2, dt),
        1 <= y0 < NUM_ROWS,
        forall|x: int, y: int|
            0 <= x < NUM_COLS && 0 <= y < NUM_ROWS ==> if y == y0 {
                #[trigger] b1.cell(x, y) is Empty || falls_a_square(b1.cell(x, y), id, dt)
            } else {
                b1.cell(x, y) is Empty
            },
    ensures
        forall|x: int, y: int|
            0 <= x < NUM_COLS && 0 <= y < NUM_ROWS ==> #[trigger] b2.cell(x, y) == if y == y0 - 1
                && !(b1.cell(x, y0) is Empty) {
                landed(b1.cell(x, y0))
            } else {
                Cell::Empty
            },
{
    let c0 = b1.cells@;
    let bottom = b1.bottom as int;
    assert forall|x: int, y: int| 0 <= x < NUM_COLS && 0 <= y < NUM_ROWS implies if y == y0 {
        #[trigger] cell_in(c0, bottom, x, y) is Empty || falls_a_square(cell_in(c0, bottom, x, y), id, dt)
    } else {
        cell_in(c0, bottom, x, y) is Empty
    } by {
        assert(cell_in(c0, bottom, x, y) == b1.cell(x, y));
    }
    lemma_scan_notes(c0, bottom, y0, id, dt, SETTLE_STEPS as int);
    let first = settle_scan(c0, bottom, dt, SETTLE_STEPS as int);
    let es = first.2;
    lemma_one_group(es, id, es.len() as int);
    let ids = group_ids(es, es.len() as int);
    let moves = all_moves(es, ids, ids.len() as int);
    lemma_block_moves(es, id, es.len() as int);
    if es.len() > 0 {
        assert(moves == all_moves(es, ids, 0) + group_moves(es, ids[0], es.len() as int));
        assert(moves =~= group_moves(es, id, es.len() as int));
    } else {
        assert(moves =~= Seq::<(int, int, bool)>::empty());
    }
    lemma_apply_block(c0, bottom, y0, id, dt, es, moves, moves.len() as int);
    let c = apply_moves(c0, bottom, moves, dt, moves.len() as int);
    assert(b2.cells@ == c);
    assert forall|x: int, y: int| 0 <= x < NUM_COLS && 0 <= y < NUM_ROWS implies #[trigger] b2.cell(
        x,
        y,
    ) == if y == y0 - 1 && !(b1.cell(x, y0) is Empty) {
        landed(b1.cell(x, y0))
    } else {
        Cell::Empty
    } by {
        assert(b2.cell(x, y) == cell_in(c, bottom, x, y));
        assert(b1.cell(x, y0) == cell_in(c0, bottom, x, y0));
        assert(cell_in(c0, bottom, x, y0) == b1.cell(x, y0));
        let yes = exists|j: int| 0 <= j < es.len() && (#[trigger] es[j]).1 == x;
        if !(b1.cell(x, y0) is Empty) {
            assert((y0 - 1) * 6 + x < SETTLE_STEPS);
            assert(yes);
        }
        if yes {
            let j = choose|j: int| 0 <= j < es.len() && (#[trigger] es[j]).1 == x;
            assert(!(cell_in(c0, bottom, x, y0) is Empty));
        }
        assert(cell_in(c0, bottom, x, y) == b1.cell(x, y));
    }
}

} // verus!
