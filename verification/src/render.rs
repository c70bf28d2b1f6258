use vstd::prelude::*;
use std::sync::mpsc::{Receiver, Sender};
use crate::board::{Board, NUM_COLS, NUM_ROWS};
use crate::cell::{Cell, GARBAGE_SPRITE};
use crate::enemy::Enemy;
use crate::game::{Game, GameEvent, GameState};
use crate::time::CELL_UNIT;
use crate::frame::SCROLL_UNIT;
use vstd::wrapping::u32_specs::{wrapping_add, wrapping_sub, wrapping_mul};
use vstd::wrapping::usize_specs::wrapping_sub as usize_wrapping_sub;

verus! {

/// A drawing call for the host, in pixels.
#[derive(Clone, Copy, Debug, PartialEq, Eq, Structural)]
pub enum DrawCommand {
    ClearScreen,
    Intro,
    /// The frame around the board: x, y, width, height.
    Borders(u32, u32, u32, u32),
    /// A sprite: sprite id, frame, x, y, source x, source y, width, height.
    Sprite(u32, u32, u32, u32, u32, u32, u32, u32),
    /// A plain block over a square: sprite id, x, y, width, height.
    Block(u32, u32, u32, u32, u32),
    /// A chain multiplier shown at a match: x, y, multiplier.
    Multiplier(u32, u32, u32),
    /// The cursor: x, y, width, height.
    CursorBlocks(u32, u32, u32, u32),
    /// The name picker: letter index, letter.
    NamePicker(i32, i32),
    /// The running chain's multiplier.
    MultiplierUi(u32),
    /// Seconds left before the enemy attacks.
    EnemyUi(u32),
}

/// The side of a square in pixels: a twelfth of the screen's height.
pub open spec fn spec_dim(height: u32) -> u32 {
    height / (NUM_ROWS as u32)
}

/// `v` millionths of `dim` pixels, rounded down, held at `u32::MAX`.
pub open spec fn spec_px(v: u64, dim: u32) -> u32 {
    let p = (v * dim) / (CELL_UNIT as int);
    if p > u32::MAX {
        u32::MAX
    } else {
        p as u32
    }
}

/// The board's scroll `delta` in pixels, for squares `dim` pixels high.
pub open spec fn spec_scroll_px(delta: u64, dim: u32) -> u32 {
    let p = (delta * dim) / (SCROLL_UNIT as int);
    if p > u32::MAX {
        u32::MAX
    } else {
        p as u32
    }
}

/// Whether a queued delete with `countdown` microseconds left shows its
/// flash: in every other hundredth of a second (never once the count is
/// past `u32::MAX` hundredths, and always once it has run out).
pub open spec fn spec_flash(countdown: i64) -> bool {
    let h: int = if countdown <= 0 {
        0
    } else if countdown / 10_000 > u32::MAX {
        u32::MAX as int
    } else {
        countdown / 10_000
    };
    h % 2 == 0
}

/// Left edge of column `x`.
pub open spec fn spec_xb(dim: u32, x: int) -> u32 {
    (dim + x * dim) as u32
}

/// Top edge of a square of logical row `y` with fall offset `off` pixels on
/// a board scrolled `dpx` pixels (wrapping as in `u32`).
pub open spec fn spec_yb(dim: u32, y: int, dpx: u32, off: u32) -> u32 {
    wrapping_add(wrapping_sub(((NUM_ROWS - y) * dim) as u32, dpx), off)
}

/// The sprite of a square of logical row `y`: the bottom row shows only
/// what has scrolled in, the top row only what has not scrolled out.
pub open spec fn spec_row_sprite(id: u32, xb: u32, yb: u32, y: int, dim: u32, dpx: u32) -> DrawCommand {
    if y == 0 {
        DrawCommand::Sprite(id, 0, xb, yb, 0, 0, dim, dpx)
    } else if y == NUM_ROWS - 1 {
        DrawCommand::Sprite(id, 0, xb, yb, 0, dpx, dim, wrapping_sub(dim, dpx))
    } else {
        DrawCommand::Sprite(id, 0, xb, yb, 0, 0, dim, dim)
    }
}

/// The fall offset of a square, 0 where it rests.
pub open spec fn spec_offset_or_zero(o: Option<u64>) -> u64 {
    match o {
        Some(v) => v,
        None => 0,
    }
}

/// What is drawn for square `c` at `(x, y)` with squares of `dim` pixels
/// and a scroll of `dpx` pixels.
pub open spec fn spec_cell_commands(c: Cell, x: int, y: int, dim: u32, dpx: u32) -> Seq<DrawCommand> {
    let xb = spec_xb(dim, x);
    match c {
        Cell::Single(id, o) => seq![
            spec_row_sprite(id, xb, spec_yb(dim, y, dpx, spec_px(spec_offset_or_zero(o), dim)), y, dim, dpx),
        ],
        Cell::QueuedDelete(val, _, o, countdown, _) => {
            let yb = spec_yb(dim, y, dpx, spec_px(o, dim));
            let flash = spec_flash(countdown);
            if y == 0 {
                seq![DrawCommand::Sprite(val, 0, xb, yb, 0, 0, dim, dpx)] + if flash {
                    seq![DrawCommand::Block(GARBAGE_SPRITE, xb, yb, dim, dpx)]
                } else {
                    Seq::empty()
                }
            } else if y == NUM_ROWS - 1 {
                let yb2 = wrapping_add(yb, dpx);
                let h = wrapping_sub(dim, dpx);
                seq![DrawCommand::Sprite(val, 0, xb, yb2, 0, dpx, dim, h)] + if flash {
                    seq![DrawCommand::Block(GARBAGE_SPRITE, xb, yb2, dim, h)]
                } else {
                    Seq::empty()
                }
            } else {
                seq![DrawCommand::Sprite(val, 0, xb, yb, 0, 0, dim, dim)] + if flash {
                    seq![DrawCommand::Block(GARBAGE_SPRITE, xb, yb, dim, dim)]
                } else {
                    Seq::empty()
                }
            }
        },
        Cell::DeathAnim(id, o, _, _) => seq![
            spec_row_sprite(id, xb, spec_yb(dim, y, dpx, spec_px(o, dim)), y, dim, dpx),
        ],
        Cell::Garbage(_, o) => seq![
            spec_row_sprite(
                GARBAGE_SPRITE,
                xb,
                spec_yb(dim, y, dpx, spec_px(spec_offset_or_zero(o), dim)),
                y,
                dim,
                dpx,
            ),
        ],
        _ => Seq::empty(),
    }
}

/// The multipliers to show after the first `k` squares, row by row from the
/// bottom, each row left to right: one per match index, at the first square
/// of a match whose chain runs, as (match index, x, y, multiplier).
pub open spec fn spec_multipliers(b: Board, dim: u32, dpx: u32, k: int) -> Seq<(u32, u32, u32, u32)>
    decreases k,
{
    if k <= 0 {
        Seq::empty()
    } else {
        let prev = spec_multipliers(b, dim, dpx, k - 1);
        let x = (k - 1) % (NUM_COLS as int);
        let y = (k - 1) / (NUM_COLS as int);
        match b.cell(x, y) {
            Cell::QueuedDelete(_, id, o, _, chain) => match chain.spec_value() {
                Some(v) => if exists|j: int| 0 <= j < prev.len() && (#[trigger] prev[j]).0 == id {
                    prev
                } else {
                    prev.push((id, spec_xb(dim, x), spec_yb(dim, y, dpx, spec_px(o, dim)), v))
                },
                None => prev,
            },
            _ => prev,
        }
    }
}

/// What is drawn for the first `k` squares, row by row from the bottom,
/// each row left to right.
pub open spec fn spec_board_commands(b: Board, dim: u32, dpx: u32, k: int) -> Seq<DrawCommand>
    decreases k,
{
    if k <= 0 {
        Seq::empty()
    } else {
        let x = (k - 1) % (NUM_COLS as int);
        let y = (k - 1) / (NUM_COLS as int);
        spec_board_commands(b, dim, dpx, k - 1) + spec_cell_commands(b.cell(x, y), x, y, dim, dpx)
    }
}

/// Commands that show the multipliers `ms`.
pub open spec fn spec_multiplier_commands(ms: Seq<(u32, u32, u32, u32)>) -> Seq<DrawCommand> {
    ms.map_values(|m: (u32, u32, u32, u32)| DrawCommand::Multiplier(m.1, m.2, m.3))
}

/// `v` millionths of `dim` pixels, rounded down, held at `u32::MAX`.
fn px(v: u64, dim: u32) -> (r: u32)
    ensures
        r == spec_px(v, dim),
{
    assert(v as u128 * dim as u128 <= u64::MAX as u128 * u32::MAX as u128) by (nonlinear_arith);
    let p: u128 = (v as u128 * dim as u128) / (CELL_UNIT as u128);
    if p > u32::MAX as u128 {
        u32::MAX
    } else {
        p as u32
    }
}

fn scroll_px(delta: u64, dim: u32) -> (r: u32)
    ensures
        r == spec_scroll_px(delta, dim),
{
    assert(delta as u128 * dim as u128 <= u64::MAX as u128 * u32::MAX as u128) by (nonlinear_arith);
    let p: u128 = (delta as u128 * dim as u128) / (SCROLL_UNIT as u128);
    if p > u32::MAX as u128 {
        u32::MAX
    } else {
        p as u32
    }
}

fn flash(countdown: i64) -> (r: bool)
    ensures
        r == spec_flash(countdown),
{
    let h: i64 = if countdown <= 0 {
        0
    } else if countdown / 10_000 > u32::MAX as i64 {
        u32::MAX as i64
    } else {
        countdown / 10_000
    };
    h % 2 == 0
}

fn row_sprite(id: u32, xb: u32, yb: u32, y: usize, dim: u32, dpx: u32) -> (r: DrawCommand)
    ensures
        r == spec_row_sprite(id, xb, yb, y as int, dim, dpx),
{
    if y == 0 {
        DrawCommand::Sprite(id, 0, xb, yb, 0, 0, dim, dpx)
    } else if y == NUM_ROWS - 1 {
        DrawCommand::Sprite(id, 0, xb, yb, 0, dpx, dim, dim.wrapping_sub(dpx))
    } else {
        DrawCommand::Sprite(id, 0, xb, yb, 0, 0, dim, dim)
    }
}

/// Left edge of column `x`.
fn col_px(dim: u32, x: usize) -> (r: u32)
    requires
        x < NUM_COLS,
        dim <= u32::MAX / 12,
    ensures
        r == spec_xb(dim, x as int),
{
    assert(dim + x * dim <= 6 * dim) by (nonlinear_arith)
        requires
            x < 6,
    ;
    dim + x as u32 * dim
}

/// Top edge of logical row `y` before scrolling.
fn row_px(dim: u32, y: usize) -> (r: u32)
    requires
        y < NUM_ROWS,
        dim <= u32::MAX / 12,
    ensures
        r == ((NUM_ROWS - y) * dim) as u32,
        r == (NUM_ROWS - y) * dim,
{
    assert((12 - y) * dim <= 12 * dim) by (nonlinear_arith)
        requires
            y < 12,
    ;
    (NUM_ROWS - y) as u32 * dim
}

/// Appends what is drawn for square `c` at `(x, y)`.
fn push_cell_commands(out: &mut Vec<DrawCommand>, c: Cell, x: usize, y: usize, dim: u32, dpx: u32)
    requires
        x < NUM_COLS,
        y < NUM_ROWS,
        dim <= u32::MAX / 12,
    ensures
        final(out)@ == old(out)@ + spec_cell_commands(c, x as int, y as int, dim, dpx),
{
    let xb = col_px(dim, x);
    let row_px = row_px(dim, y);
    match c {
        Cell::Single(id, o) => {
            let off = match o {
                Some(v) => v,
                None => 0,
            };
            let yb = row_px.wrapping_sub(dpx).wrapping_add(px(off, dim));
            out.push(row_sprite(id, xb, yb, y, dim, dpx));
        },
        Cell::QueuedDelete(val, _, o, countdown, _) => {
            let yb = row_px.wrapping_sub(dpx).wrapping_add(px(o, dim));
            let f = flash(countdown);
            if y == 0 {
                out.push(DrawCommand::Sprite(val, 0, xb, yb, 0, 0, dim, dpx));
                if f {
                    out.push(DrawCommand::Block(GARBAGE_SPRITE, xb, yb, dim, dpx));
                }
            } else if y == NUM_ROWS - 1 {
                let yb2 = yb.wrapping_add(dpx);
                let h = dim.wrapping_sub(dpx);
                out.push(DrawCommand::Sprite(val, 0, xb, yb2, 0, dpx, dim, h));
                if f {
                    out.push(DrawCommand::Block(GARBAGE_SPRITE, xb, yb2, dim, h));
                }
            } else {
                out.push(DrawCommand::Sprite(val, 0, xb, yb, 0, 0, dim, dim));
                if f {
                    out.push(DrawCommand::Block(GARBAGE_SPRITE, xb, yb, dim, dim));
                }
            }
        },
        Cell::DeathAnim(id, o, _, _) => {
            let yb = row_px.wrapping_sub(dpx).wrapping_add(px(o, dim));
            out.push(row_sprite(id, xb, yb, y, dim, dpx));
        },
        Cell::Garbage(_, o) => {
            let off = match o {
                Some(v) => v,
                None => 0,
            };
            let yb = row_px.wrapping_sub(dpx).wrapping_add(px(off, dim));
            out.push(row_sprite(GARBAGE_SPRITE, xb, yb, y, dim, dpx));
        },
        _ => {},
    }
    proof {
        let sc = spec_cell_commands(c, x as int, y as int, dim, dpx);
        assert(final(out)@ =~= old(out)@ + sc);
    }
}

fn has_multiplier(ms: &Vec<(u32, u32, u32, u32)>, id: u32) -> (r: bool)
    ensures
        r == exists|j: int| 0 <= j < ms@.len() && (#[trigger] ms@[j]).0 == id,
{
    let mut i: usize = 0;
    while i < ms.len()
        invariant
            i <= ms@.len(),
            forall|j: int| 0 <= j < i ==> (#[trigger] ms@[j]).0 != id,
        decreases ms@.len() - i,
    {
        if ms[i].0 == id {
            return true;
        }
        i = i + 1;
    }
    false
}

/// Whole seconds in `countdown` microseconds, 0 where it has run out, held
/// at `u32::MAX`.
pub open spec fn spec_seconds(countdown: i64) -> u32 {
    if countdown <= 0 {
        0
    } else if countdown / 1_000_000 > u32::MAX {
        u32::MAX
    } else {
        (countdown / 1_000_000) as u32
    }
}

/// What is drawn for the cursor of `board` with squares of `dim` pixels
/// (wrapping as in `u32` where the cursor has left the board).
pub open spec fn spec_cursor_command(board: Board, dim: u32) -> DrawCommand {
    let dpx = spec_scroll_px(board.delta, dim);
    let xb = wrapping_add(dim, wrapping_mul(board.user_col as u32, dim));
    let yb = wrapping_sub(
        wrapping_mul(usize_wrapping_sub(NUM_ROWS, board.user_row) as u32, dim),
        dpx,
    );
    if board.user_row == 0 {
        DrawCommand::CursorBlocks(xb, yb, dim, dpx)
    } else if board.user_row == NUM_ROWS - 1 {
        DrawCommand::CursorBlocks(xb, wrapping_add(yb, dpx), dim, wrapping_sub(dim, dpx))
    } else {
        DrawCommand::CursorBlocks(xb, yb, dim, dim)
    }
}

/// What is drawn for the enemy's countdown and the running chain.
pub open spec fn spec_ui_commands(board: Board, enemy: Enemy) -> Seq<DrawCommand> {
    seq![DrawCommand::EnemyUi(spec_seconds(enemy.countdown))] + match board.chain.spec_value() {
        Some(c) => seq![DrawCommand::MultiplierUi(c)],
        None => Seq::empty(),
    }
}

fn seconds(countdown: i64) -> (r: u32)
    ensures
        r == spec_seconds(countdown),
{
    if countdown <= 0 {
        0
    } else if countdown / 1_000_000 > u32::MAX as i64 {
        u32::MAX
    } else {
        (countdown / 1_000_000) as u32
    }
}

/// The screen, and the channel for game events.
pub struct RenderData {
    screen_width: u32,
    screen_height: u32,
    _receiver: Receiver<GameEvent>,
    pub sender: Sender<GameEvent>,
}

impl RenderData {
    /// The width of the screen in pixels.
    pub closed spec fn spec_width(&self) -> u32 {
        self.screen_width
    }

    /// The height of the screen in pixels.
    pub closed spec fn spec_height(&self) -> u32 {
        self.screen_height
    }

    /// The two halves of the channel for game events.
    pub closed spec fn spec_channel(&self) -> (Sender<GameEvent>, Receiver<GameEvent>) {
        (self.sender, self._receiver)
    }

    /// A 1024 by 768 screen, with a new channel for game events.
    pub fn new() -> (r: RenderData)
        ensures
            r.spec_width() == 1024,
            r.spec_height() == 768,
    {
        let (tx, rx) = crate::channel::new_channel();
        RenderData { screen_width: 1024, screen_height: 768, _receiver: rx, sender: tx }
    }

    /// The screen is now `width` by `height` pixels; the channel stays.
    pub fn resize(&mut self, width: u32, height: u32)
        ensures
            final(self).spec_width() == width,
            final(self).spec_height() == height,
            final(self).spec_channel() == old(self).spec_channel(),
    {
        self.screen_width = width;
        self.screen_height = height;
    }

    /// The width of the screen in pixels.
    pub fn screen_width(&self) -> (w: u32)
        ensures
            w == self.spec_width(),
    {
        self.screen_width
    }

    /// The height of the screen in pixels.
    pub fn screen_height(&self) -> (h: u32)
        ensures
            h == self.spec_height(),
    {
        self.screen_height
    }

    /// The side of a square in pixels.
    fn dim(&self) -> (d: u32)
        ensures
            d == spec_dim(self.spec_height()),
            d <= u32::MAX / 12,
    {
        let h = self.screen_height;
        assert(h / 12 <= 0xffff_ffffu32 / 12) by (nonlinear_arith)
            requires
                h <= 0xffff_ffff,
        ;
        h / (NUM_ROWS as u32)
    }

    /// What is drawn for the board: every square, row by row from the
    /// bottom, each row left to right, then the multipliers of the running
    /// chain at the first square of each match.
    pub fn draw_board(&self, board: &Board) -> (cmds: Vec<DrawCommand>)
        requires
            board.wf(),
        ensures
            ({
                let dim = spec_dim(self.spec_height());
                let dpx = spec_scroll_px(board.delta, dim);
                cmds@ == spec_board_commands(*board, dim, dpx, 72) + spec_multiplier_commands(
                    spec_multipliers(*board, dim, dpx, 72),
                )
            }),
    {
        let dim = self.dim();
        let dpx = scroll_px(board.delta, dim);
        let mut cmds: Vec<DrawCommand> = Vec::new();
        let mut ms: Vec<(u32, u32, u32, u32)> = Vec::new();
        let mut k: usize = 0;
        while k < NUM_ROWS * NUM_COLS
            invariant
                k <= NUM_ROWS * NUM_COLS,
                board.wf(),
                dim == spec_dim(self.spec_height()),
                dim <= u32::MAX / 12,
                dpx == spec_scroll_px(board.delta, dim),
                cmds@ == spec_board_commands(*board, dim, dpx, k as int),
                ms@ == spec_multipliers(*board, dim, dpx, k as int),
            decreases NUM_ROWS * NUM_COLS - k,
        {
            let x = k % NUM_COLS;
            let y = k / NUM_COLS;
            let c = *board.get_cell(x, y);
            push_cell_commands(&mut cmds, c, x, y, dim, dpx);
            if let Cell::QueuedDelete(_, id, o, _, chain) = c {
                if let Some(v) = chain.get_value() {
                    if !has_multiplier(&ms, id) {
                        let xb = col_px(dim, x);
                        let yb = row_px(dim, y).wrapping_sub(dpx).wrapping_add(
                            px(o, dim),
                        );
                        ms.push((id, xb, yb, v));
                    }
                }
            }
            k = k + 1;
        }
        let ghost board_part = cmds@;
        let mut i: usize = 0;
        while i < ms.len()
            invariant
                i <= ms@.len(),
                cmds@ == board_part + spec_multiplier_commands(ms@.take(i as int)),
            decreases ms@.len() - i,
        {
            let m = ms[i];
            cmds.push(DrawCommand::Multiplier(m.1, m.2, m.3));
            proof {
                assert(ms@.take(i as int + 1) =~= ms@.take(i as int).push(m));
                assert(spec_multiplier_commands(ms@.take(i as int + 1)) =~= spec_multiplier_commands(
                    ms@.take(i as int),
                ).push(DrawCommand::Multiplier(m.1, m.2, m.3)));
            }
            i = i + 1;
        }
        assert(ms@.take(ms@.len() as int) =~= ms@);
        cmds
    }

    /// What is drawn for the cursor.
    pub fn draw_cursor(&self, board: &Board) -> (cmd: DrawCommand)
        ensures
            cmd == spec_cursor_command(*board, spec_dim(self.spec_height())),
    {
        let dim = self.dim();
        let dpx = scroll_px(board.delta, dim);
        let xb = dim.wrapping_add((board.user_col as u32).wrapping_mul(dim));
        let yb = (NUM_ROWS.wrapping_sub(board.user_row) as u32).wrapping_mul(dim).wrapping_sub(dpx);
        if board.user_row == 0 {
            DrawCommand::CursorBlocks(xb, yb, dim, dpx)
        } else if board.user_row == NUM_ROWS - 1 {
            DrawCommand::CursorBlocks(xb, yb.wrapping_add(dpx), dim, dim.wrapping_sub(dpx))
        } else {
            DrawCommand::CursorBlocks(xb, yb, dim, dim)
        }
    }

    /// What is drawn for the enemy's countdown and the running chain.
    pub fn draw_ui(&self, board: &Board, enemy: &Enemy) -> (cmds: Vec<DrawCommand>)
        ensures
            cmds@ == spec_ui_commands(*board, *enemy),
    {
        let mut cmds: Vec<DrawCommand> = Vec::new();
        cmds.push(DrawCommand::EnemyUi(seconds(enemy.countdown)));
        let c = board.chain.get_value();
        if c.is_some() {
            cmds.push(DrawCommand::MultiplierUi(c.unwrap()));
        }
        assert(cmds@ =~= spec_ui_commands(*board, *enemy));
        cmds
    }

    /// What is drawn for a frame in state `game_state`: the screen is
    /// cleared and the board's frame drawn; then the intro, the board with
    /// its cursor and the counters while playing, or the name picker.
    pub fn draw(&self, game_state: GameState, game: &Game) -> (cmds: Vec<DrawCommand>)
        requires
            game.board.wf(),
        ensures
            ({
                let dim = spec_dim(self.spec_height());
                let dpx = spec_scroll_px(game.board.delta, dim);
                let head = seq![
                    DrawCommand::ClearScreen,
                    DrawCommand::Borders(dim, dim, (dim * 7) as u32, (dim * 12) as u32),
                ];
                cmds@ == head + match game_state {
                    GameState::Intro(_) => seq![DrawCommand::Intro],
                    GameState::Playing => spec_board_commands(game.board, dim, dpx, 72)
                        + spec_multiplier_commands(spec_multipliers(game.board, dim, dpx, 72))
                        + seq![spec_cursor_command(game.board, dim)] + spec_ui_commands(
                        game.board,
                        game.enemy,
                    ),
                    GameState::ShowHighScore(_, _, _) => seq![
                        DrawCommand::NamePicker(game.letter_index, game.cur_letter),
                    ],
                    _ => Seq::empty(),
                }
            }),
    {
        let dim = self.dim();
        let mut cmds: Vec<DrawCommand> = Vec::new();
        cmds.push(DrawCommand::ClearScreen);
        cmds.push(DrawCommand::Borders(dim, dim, dim * (NUM_COLS + 1) as u32, dim * NUM_ROWS as u32));
        let ghost head = cmds@;
        match game_state {
            GameState::Intro(_) => {
                cmds.push(DrawCommand::Intro);
            },
            GameState::Playing => {
                let mut b = self.draw_board(&game.board);
                cmds.append(&mut b);
                cmds.push(self.draw_cursor(&game.board));
                let mut u = self.draw_ui(&game.board, &game.enemy);
                cmds.append(&mut u);
            },
            GameState::ShowHighScore(_, _, _) => {
                cmds.push(DrawCommand::NamePicker(game.letter_index, game.cur_letter));
            },
            _ => {},
        }
        proof {
            let dim = spec_dim(self.spec_height());
            let dpx = spec_scroll_px(game.board.delta, dim);
            assert(cmds@ =~= head + match game_state {
                GameState::Intro(_) => seq![DrawCommand::Intro],
                GameState::Playing => spec_board_commands(game.board, dim, dpx, 72)
                    + spec_multiplier_commands(spec_multipliers(game.board, dim, dpx, 72))
                    + seq![spec_cursor_command(game.board, dim)] + spec_ui_commands(
                    game.board,
                    game.enemy,
                ),
                GameState::ShowHighScore(_, _, _) => seq![
                    DrawCommand::NamePicker(game.letter_index, game.cur_letter),
                ],
                _ => Seq::empty(),
            });
        }
        cmds
    }
}

} // verus!
