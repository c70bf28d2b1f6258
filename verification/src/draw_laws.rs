use vstd::prelude::*;
use vstd::wrapping::u32_specs::{wrapping_add, wrapping_sub};
use crate::board::{Board, NUM_CELLS, NUM_COLS, NUM_ROWS};
use crate::cell::{Cell, GARBAGE_SPRITE};
use crate::render::{
    DrawCommand, spec_board_commands, spec_cell_commands, spec_px, spec_xb, spec_yb,
};

verus! {

/// The sprite that square `c` shows, with its fall offset: a coloured,
/// matched or dying block shows its colour, garbage the garbage sprite;
/// empty squares and captchas show no sprite.
pub open spec fn shown_sprite(c: Cell) -> Option<(u32, u64)> {
    match c {
        Cell::Single(v, o) => Some((v, if o is Some { o->Some_0 } else { 0 })),
        Cell::QueuedDelete(v, _, o, _, _) => Some((v, o)),
        Cell::DeathAnim(v, o, _, _) => Some((v, o)),
        Cell::Garbage(_, o) => Some((GARBAGE_SPRITE, if o is Some { o->Some_0 } else { 0 })),
        _ => None,
    }
}

/// What is drawn for the `s`-th square, row by row from the bottom.
pub open spec fn square_commands(b: Board, dim: u32, dpx: u32, s: int) -> Seq<DrawCommand> {
    spec_cell_commands(
        b.cell(s % (NUM_COLS as int), s / (NUM_COLS as int)),
        s % (NUM_COLS as int),
        s / (NUM_COLS as int),
        dim,
        dpx,
    )
}

proof fn lemma_board_commands(b: Board, dim: u32, dpx: u32, k: int)
    requires
        0 <= k <= NUM_CELLS,
    ensures
        forall|s: int, j: int|
            0 <= s < k && 0 <= j < square_commands(b, dim, dpx, s).len() ==> spec_board_commands(
                b,
                dim,
                dpx,
                k,
            ).contains(#[trigger] square_commands(b, dim, dpx, s)[j]),
        forall|i: int|
            0 <= i < spec_board_commands(b, dim, dpx, k).len() ==> #[trigger] from_square(
                b,
                dim,
                dpx,
                k,
                spec_board_commands(b, dim, dpx, k)[i],
            ),
    decreases k,
{
    if k > 0 {
        lemma_board_commands(b, dim, dpx, k - 1);
        let prev = spec_board_commands(b, dim, dpx, k - 1);
        let x = (k - 1) % (NUM_COLS as int);
        let y = (k - 1) / (NUM_COLS as int);
        let here = spec_cell_commands(b.cell(x, y), x, y, dim, dpx);
        let all = spec_board_commands(b, dim, dpx, k);
        assert(all == prev + here);
        assert(square_commands(b, dim, dpx, k - 1) == here);
        assert forall|s: int, j: int|
            0 <= s < k && 0 <= j < square_commands(b, dim, dpx, s).len() implies all.contains(
            #[trigger] square_commands(b, dim, dpx, s)[j],
        ) by {
            let c = square_commands(b, dim, dpx, s)[j];
            if s < k - 1 {
                assert(prev.contains(c));
                let i = choose|i: int| 0 <= i < prev.len() && prev[i] == c;
                assert(all[i] == c);
            } else {
                assert(all[prev.len() + j] == c);
            }
        }
        assert forall|i: int| 0 <= i < all.len() implies #[trigger] from_square(
            b,
            dim,
            dpx,
            k,
            all[i],
        ) by {
            if i < prev.len() {
                assert(all[i] == prev[i]);
                assert(from_square(b, dim, dpx, k - 1, prev[i]));
                let s = choose|s: int|
                    0 <= s < k - 1 && #[trigger] square_commands(b, dim, dpx, s).contains(prev[i]);
                assert(0 <= s < k && square_commands(b, dim, dpx, s).contains(all[i]));
            } else {
                assert(all[i] == here[i - prev.len()]);
                assert(square_commands(b, dim, dpx, k - 1).contains(all[i]));
            }
        }
    }
}

/// `c` is among what is drawn for one of the first `k` squares.
pub open spec fn from_square(b: Board, dim: u32, dpx: u32, k: int, c: DrawCommand) -> bool {
    exists|s: int| 0 <= s < k && #[trigger] square_commands(b, dim, dpx, s).contains(c)
}

/// Every block on the board is drawn: each square holding a coloured,
/// matched, dying or garbage block has a sprite of its colour (the garbage
/// sprite for garbage) at its column's left edge and its row's height
/// (lowered by its fall offset, raised by the scroll): whole in the middle
/// rows, only what has scrolled in on the bottom row, and only what has not
/// scrolled out on the top row. Conversely every sprite drawn for the board
/// is that of such a square, at its column.
pub proof fn law_every_block_is_drawn(b: Board, dim: u32, dpx: u32)
    ensures
        forall|x: int, y: int|
            0 <= x < NUM_COLS && 0 <= y < NUM_ROWS && (#[trigger] shown_sprite(b.cell(x, y))) is Some
                ==> ({
                let (v, o) = shown_sprite(b.cell(x, y))->Some_0;
                let xb = spec_xb(dim, x);
                let yb = spec_yb(dim, y, dpx, spec_px(o, dim));
                spec_board_commands(b, dim, dpx, NUM_CELLS as int).contains(
                    if y == 0 {
                        DrawCommand::Sprite(v, 0, xb, yb, 0, 0, dim, dpx)
                    } else if y == NUM_ROWS - 1 {
                        DrawCommand::Sprite(
                            v,
                            0,
                            xb,
                            if b.cell(x, y) is QueuedDelete {
                                wrapping_add(yb, dpx)
                            } else {
                                yb
                            },
                            0,
                            dpx,
                            dim,
                            wrapping_sub(dim, dpx),
                        )
                    } else {
                        DrawCommand::Sprite(v, 0, xb, yb, 0, 0, dim, dim)
                    },
                )
            }),
        forall|i: int|
            0 <= i < spec_board_commands(b, dim, dpx, NUM_CELLS as int).len() && (
            #[trigger] spec_board_commands(b, dim, dpx, NUM_CELLS as int)[i]) is Sprite ==> exists|
                x: int,
                y: int,
            |
                0 <= x < NUM_COLS && 0 <= y < NUM_ROWS && (#[trigger] shown_sprite(b.cell(x, y)))
                    is Some && spec_board_commands(b, dim, dpx, NUM_CELLS as int)[i]->Sprite_0
                    == shown_sprite(b.cell(x, y))->Some_0.0 && spec_board_commands(
                    b,
                    dim,
                    dpx,
                    NUM_CELLS as int,
                )[i]->Sprite_2 == spec_xb(dim, x),
{
    lemma_board_commands(b, dim, dpx, NUM_CELLS as int);
    let cmds = spec_board_commands(b, dim, dpx, NUM_CELLS as int);
    assert forall|x: int, y: int|
        0 <= x < NUM_COLS && 0 <= y < NUM_ROWS && (#[trigger] shown_sprite(b.cell(x, y))) is Some implies ({
        let (v, o) = shown_sprite(b.cell(x, y))->Some_0;
        let xb = spec_xb(dim, x);
        let yb = spec_yb(dim, y, dpx, spec_px(o, dim));
        cmds.contains(
            if y == 0 {
                DrawCommand::Sprite(v, 0, xb, yb, 0, 0, dim, dpx)
            } else if y == NUM_ROWS - 1 {
                DrawCommand::Sprite(
                    v,
                    0,
                    xb,
                    if b.cell(x, y) is QueuedDelete {
                        wrapping_add(yb, dpx)
                    } else {
                        yb
                    },
                    0,
                    dpx,
                    dim,
                    wrapping_sub(dim, dpx),
                )
            } else {
                DrawCommand::Sprite(v, 0, xb, yb, 0, 0, dim, dim)
            },
        )
    }) by {
        let s = y * 6 + x;
        assert(s % 6 == x && s / 6 == y);
        let here = spec_cell_commands(b.cell(x, y), x, y, dim, dpx);
        assert(square_commands(b, dim, dpx, s) == here);
        assert(here.len() >= 1);
        assert(0 <= s < NUM_CELLS);
        assert(cmds.contains(square_commands(b, dim, dpx, s)[0]));
    }
    assert forall|i: int| 0 <= i < cmds.len() && (#[trigger] cmds[i]) is Sprite implies exists|
        x: int,
        y: int,
    |
        0 <= x < NUM_COLS && 0 <= y < NUM_ROWS && (#[trigger] shown_sprite(b.cell(x, y))) is Some
            && cmds[i]->Sprite_0 == shown_sprite(b.cell(x, y))->Some_0.0 && cmds[i]->Sprite_2
            == spec_xb(dim, x) by {
        assert(from_square(b, dim, dpx, NUM_CELLS as int, cmds[i]));
        let s = choose|s: int|
            0 <= s < NUM_CELLS && #[trigger] square_commands(b, dim, dpx, s).contains(cmds[i]);
        let x = s % 6;
        let y = s / 6;
        assert(0 <= x < 6 && 0 <= y < 12);
        assert(shown_sprite(b.cell(x, y)) is Some);
    }
}

} // verus!
