use vstd::prelude::*;
use std::sync::mpsc::Sender;
use core::convert::Infallible;
use crate::board::{
    Board, CaptchaInput, NUM_COLS, NUM_ROWS, captcha_answered_in, swap_in,
};
use crate::enemy::{Enemy, COOLDOWN, spec_delayed};
use crate::input::Input;
use crate::cell::Cell;
use crate::matches::dirs_fit;
use crate::time::{tick_down, tick_up, spec_tick_down, spec_tick_up, MICROS_PER_SECOND};

verus! {

/// How long a direction must be held before it repeats: half a second.
pub const REPEAT_DELAY: i64 = 500_000;

/// How long the intro waits before a key starts the game: half a second.
pub const INTRO_TIME: i64 = 500_000;

/// Letters of the name picker.
pub const NUM_LETTERS: i32 = 26;

/// Something the game tells the rest of the program. No event exists yet:
/// the type has no values.
pub struct GameEvent(Infallible);

/// Where the game is. Timers count down in microseconds.
#[derive(Clone, Copy, Debug, PartialEq, Eq, Structural)]
pub enum GameState {
    Intro(i64),
    Playing,
    _Death(i64),
    CheckHighScore,
    WaitHighScore,
    /// Entering a name for the high score table: whether the swap, left and
    /// right controls were down in the previous frame.
    ShowHighScore(bool, bool, bool),
    _GameOver(i64),
}

/// A call that the game asks the host to make after a frame.
#[derive(Debug, PartialEq, Eq, Structural)]
pub enum HostCall {
    /// A game starts.
    NewSession,
    /// The host checks whether the score makes the high score table.
    CheckHighScore,
    /// The game is over and the name is entered.
    HandleGameOver,
}

/// A question that the game needs the host to answer before a frame.
#[derive(Debug, PartialEq, Eq, Structural)]
pub enum HostQuery {
    /// Whether the high score check is done: 1 for no high score, 2 for a
    /// high score, anything else for not yet.
    WaitHighScore,
    /// Whether the outro is done: 1 for done.
    WaitOutroComplete,
}

/// The random values that one frame may use.
pub struct FrameRolls {
    /// Colours of a new bottom row.
    pub row: Vec<u32>,
    /// Directions of captchas, by storage index.
    pub dirs: Vec<u32>,
    /// Colours of the two blocks that a solved captcha turns into.
    pub captcha: (u32, u32),
    /// Left column of a new garbage block.
    pub garbage_start: usize,
}

impl FrameRolls {
    /// The values fit what they are drawn for.
    pub open spec fn wf(&self) -> bool {
        &&& self.row@.len() == NUM_COLS
        &&& dirs_fit(self.dirs@)
        &&& self.garbage_start + 1 < NUM_COLS
    }
}

/// What one frame makes of a held direction: whether it fires, and its new
/// state (held, time held). A new press fires at once; a held direction
/// fires again once held for longer than the repeat delay.
pub open spec fn spec_do_input(cur: bool, dir: (bool, i64)) -> (bool, (bool, i64)) {
    if cur {
        if !dir.0 {
            (true, (true, 0))
        } else if dir.1 < REPEAT_DELAY {
            (false, dir)
        } else if dir.1 > REPEAT_DELAY {
            (true, dir)
        } else {
            (false, dir)
        }
    } else {
        (false, (false, 0))
    }
}

/// A held direction's time held grows by `dt`.
pub open spec fn spec_hold(dir: (bool, i64), dt: int) -> (bool, i64) {
    if dir.0 {
        (dir.0, spec_tick_up(dir.1, dt))
    } else {
        dir
    }
}

/// The data structure that contains the state of the game.
pub struct Game {
    pub board: Board,
    pub enemy: Enemy,
    /// State of the game.
    pub game_state: GameState,
    pub last_left: (bool, i64),
    pub last_right: (bool, i64),
    pub last_up: (bool, i64),
    pub last_down: (bool, i64),
    pub action_pressed: bool,
    pub boost: bool,
    /// Name picker: which letter is being picked, and the letter.
    pub letter_index: i32,
    pub cur_letter: i32,
    /// Events to other parts of the system.
    pub _sender: Sender<GameEvent>,
}

/// The cursor after a direction fires, where no captcha takes it: it stays
/// on the board (its left square in the first five columns, its row below
/// the top row).
pub open spec fn spec_dir_move(uc: int, ur: int, dir: CaptchaInput) -> (int, int) {
    match dir {
        CaptchaInput::LEFT => if uc > 0 {
            (uc - 1, ur)
        } else {
            (uc, ur)
        },
        CaptchaInput::RIGHT => if uc < NUM_COLS - 2 {
            (uc + 1, ur)
        } else {
            (uc, ur)
        },
        CaptchaInput::UP => if ur < NUM_ROWS - 2 {
            (uc, ur + 1)
        } else {
            (uc, ur)
        },
        CaptchaInput::DOWN => if ur > 0 {
            (uc, ur - 1)
        } else {
            (uc, ur)
        },
    }
}

/// The cursor after a direction that may fire.
pub open spec fn spec_maybe_move(cur: (int, int), fire: bool, dir: CaptchaInput) -> (int, int) {
    if fire {
        spec_dir_move(cur.0, cur.1, dir)
    } else {
        cur
    }
}

/// The cursor after a frame's directions (left, right, up, down), where no
/// captcha takes them.
pub open spec fn spec_cursor(
    uc: int,
    ur: int,
    fl: bool,
    fr: bool,
    fu: bool,
    fd: bool,
) -> (int, int) {
    spec_maybe_move(
        spec_maybe_move(
            spec_maybe_move(spec_maybe_move((uc, ur), fl, CaptchaInput::LEFT), fr, CaptchaInput::RIGHT),
            fu,
            CaptchaInput::UP,
        ),
        fd,
        CaptchaInput::DOWN,
    )
}

impl Game {
    /// A new game in its intro.
    pub fn new(tx: Sender<GameEvent>) -> (g: Game)
        ensures
            g.board.is_fresh(),
            g.enemy.countdown == COOLDOWN,
            g.game_state == GameState::Intro(INTRO_TIME),
            g.last_left == (false, 0i64),
            g.last_right == (false, 0i64),
            g.last_up == (false, 0i64),
            g.last_down == (false, 0i64),
            !g.action_pressed,
            !g.boost,
            g.letter_index == 0,
            g.cur_letter == 0,
    {
        Game {
            board: Board::new(),
            enemy: Enemy::new(),
            game_state: GameState::Intro(INTRO_TIME),
            last_left: (false, 0),
            last_right: (false, 0),
            last_up: (false, 0),
            last_down: (false, 0),
            action_pressed: false,
            boost: false,
            letter_index: 0,
            cur_letter: 0,
            _sender: tx,
        }
    }

    /// What a frame makes of a held direction: whether it fires now.
    pub fn do_input(cur: bool, dir: &mut (bool, i64)) -> (fire: bool)
        ensures
            (fire, *final(dir)) == spec_do_input(cur, *old(dir)),
    {
        if cur {
            if !dir.0 {
                dir.0 = true;
                dir.1 = 0;
                return true;
            }
            if dir.0 && dir.1 < REPEAT_DELAY {
                return false;
            } else if dir.0 && dir.1 > REPEAT_DELAY {
                return true;
            }
        } else {
            dir.0 = false;
            dir.1 = 0;
        }
        return false;
    }

    /// The cursor covers two captcha squares.
    pub open spec fn spec_over_captcha(self) -> bool {
        &&& self.board.cell(self.board.user_col as int, self.board.user_row as int) is Captcha
        &&& self.board.cell(self.board.user_col + 1, self.board.user_row as int) is Captcha
    }

    /// Whether the cursor covers two captcha squares.
    fn is_over_captcha(&self) -> (r: bool)
        requires
            self.board.wf(),
            self.board.valid_pos(self.board.user_col as int, self.board.user_row as int),
            self.board.valid_pos(self.board.user_col + 1, self.board.user_row as int),
        ensures
            r == self.spec_over_captcha(),
    {
        self.board.is_over_captcha()
    }

    /// Swaps the two squares under the cursor.
    fn swap_pieces(&mut self)
        requires
            old(self).board.wf(),
            old(self).board.valid_pos(
                old(self).board.user_col as int,
                old(self).board.user_row as int,
            ),
            old(self).board.valid_pos(old(self).board.user_col + 1, old(self).board.user_row as int),
        ensures
            final(self).board.wf(),
            (final(self).board.cells@, final(self).board.just_touched@) == old(self).board.spec_swap(
                old(self).board.user_col as int,
                old(self).board.user_row as int,
                old(self).board.user_col + 1,
                old(self).board.user_row as int,
                true,
            ),
            final(self).board.delta == old(self).board.delta,
            final(self).board.chain == old(self).board.chain,
            final(self).board.chains_valid == old(self).board.chains_valid,
            final(self).board.next_garbage_id == old(self).board.next_garbage_id,
            final(self).board.user_row == old(self).board.user_row,
            final(self).board.user_col == old(self).board.user_col,
            final(self).board.bottom == old(self).board.bottom,
            final(self).enemy == old(self).enemy,
            final(self).game_state == old(self).game_state,
            final(self).last_left == old(self).last_left,
            final(self).last_right == old(self).last_right,
            final(self).last_up == old(self).last_up,
            final(self).last_down == old(self).last_down,
            final(self).action_pressed == old(self).action_pressed,
            final(self).boost == old(self).boost,
            final(self).letter_index == old(self).letter_index,
            final(self).cur_letter == old(self).cur_letter,
            final(self)._sender == old(self)._sender,
    {
        self.board.swap_pieces_at_cursor();
    }

    /// Where a frame's input (with `input`) moves the cursor and whether it
    /// swaps: (fires left, right, up, down; captcha mode; cursor column and
    /// row after; swaps).
    pub open spec fn spec_input_plan(self, input: Input) -> (bool, bool, bool, bool, bool, int, int, bool) {
        let fl = spec_do_input(input.left, self.last_left).0;
        let fr = spec_do_input(input.right, self.last_right).0;
        let fu = spec_do_input(input.up, self.last_up).0;
        let fd = spec_do_input(input.down, self.last_down).0;
        let captcha = self.spec_over_captcha();
        let cur = if captcha {
            (self.board.user_col as int, self.board.user_row as int)
        } else {
            spec_cursor(self.board.user_col as int, self.board.user_row as int, fl, fr, fu, fd)
        };
        (fl, fr, fu, fd, captcha, cur.0, cur.1, input.action && !self.action_pressed)
    }

    /// The squares that `handle_input` reads are on the board.
    pub open spec fn input_ok(self, input: Input) -> bool {
        let plan = self.spec_input_plan(input);
        &&& self.board.wf()
        &&& self.board.valid_pos(self.board.user_col as int, self.board.user_row as int)
        &&& self.board.valid_pos(self.board.user_col + 1, self.board.user_row as int)
        &&& plan.7 ==> self.board.valid_pos(plan.5, plan.6) && self.board.valid_pos(
            plan.5 + 1,
            plan.6,
        )
    }

    /// The squares after the directions of `input` that fire answer the
    /// captcha under the cursor, left, right, up, down in that order; where
    /// the cursor is over no captcha, the squares as they are. `values` are
    /// the colours of the blocks that a solved captcha turns into.
    pub open spec fn spec_answered(self, input: Input, values: (u32, u32)) -> Seq<Cell> {
        let plan = self.spec_input_plan(input);
        let (fl, fr, fu, fd, captcha) = (plan.0, plan.1, plan.2, plan.3, plan.4);
        let bot = self.board.bottom as int;
        let (x, y) = (self.board.user_col as int, self.board.user_row as int);
        let answer = |c: Seq<Cell>, fire: bool, dir: CaptchaInput|
            if fire && captcha {
                captcha_answered_in(c, bot, x, y, dir, values)
            } else {
                c
            };
        answer(
            answer(
                answer(answer(self.board.cells@, fl, CaptchaInput::LEFT), fr, CaptchaInput::RIGHT),
                fu,
                CaptchaInput::UP,
            ),
            fd,
            CaptchaInput::DOWN,
        )
    }

    /// `g2` is `g1` after it handles `input` for a frame of `dt`
    /// microseconds, where `values` are the colours of the blocks that a
    /// solved captcha turns into. Over a captcha, each direction that fires
    /// answers it, left, right, up, down in that order; otherwise the
    /// directions move the cursor within the board. A new press of the swap
    /// button swaps the squares under the cursor; the boost follows its
    /// button; held directions count their time held.
    pub open spec fn handle_input_rel(g1: Game, g2: Game, dt: int, input: Input, values: (u32, u32)) -> bool {
        let plan = g1.spec_input_plan(input);
        let b = g1.board;
        let bot = b.bottom as int;
        let c4 = g1.spec_answered(input, values);
        let swapped = if plan.7 {
            swap_in(c4, b.just_touched@, bot, plan.5, plan.6, plan.5 + 1, plan.6, true)
        } else {
            (c4, b.just_touched@)
        };
        &&& g2.board.wf()
        &&& g2.board.cells@ == swapped.0
        &&& g2.board.just_touched@ == swapped.1
        &&& g2.board.user_col == plan.5
        &&& g2.board.user_row == plan.6
        &&& g2.board.delta == b.delta
        &&& g2.board.chain == b.chain
        &&& g2.board.chains_valid == b.chains_valid
        &&& g2.board.next_garbage_id == b.next_garbage_id
        &&& g2.board.bottom == b.bottom
        &&& g2.last_left == spec_hold(spec_do_input(input.left, g1.last_left).1, dt)
        &&& g2.last_right == spec_hold(spec_do_input(input.right, g1.last_right).1, dt)
        &&& g2.last_up == spec_hold(spec_do_input(input.up, g1.last_up).1, dt)
        &&& g2.last_down == spec_hold(spec_do_input(input.down, g1.last_down).1, dt)
        &&& g2.action_pressed == input.action
        &&& g2.boost == input.alt
        &&& g2.enemy == g1.enemy
        &&& g2.game_state == g1.game_state
        &&& g2.letter_index == g1.letter_index
        &&& g2.cur_letter == g1.cur_letter
        &&& g2._sender == g1._sender
    }

    /// A direction that fires answers the captcha under the cursor, or, with
    /// no captcha there, moves the cursor.
    fn direction(&mut self, fire: bool, is_captcha: bool, dir: CaptchaInput, values: (u32, u32))
        requires
            old(self).board.wf(),
            is_captcha ==> old(self).board.valid_pos(
                old(self).board.user_col as int,
                old(self).board.user_row as int,
            ) && old(self).board.valid_pos(
                old(self).board.user_col + 1,
                old(self).board.user_row as int,
            ),
        ensures
            final(self).board.wf(),
            final(self).board.cells@ == if fire && is_captcha {
                captcha_answered_in(
                    old(self).board.cells@,
                    old(self).board.bottom as int,
                    old(self).board.user_col as int,
                    old(self).board.user_row as int,
                    dir,
                    values,
                )
            } else {
                old(self).board.cells@
            },
            (final(self).board.user_col as int, final(self).board.user_row as int) == if fire
                && !is_captcha {
                spec_dir_move(
                    old(self).board.user_col as int,
                    old(self).board.user_row as int,
                    dir,
                )
            } else {
                (old(self).board.user_col as int, old(self).board.user_row as int)
            },
            final(self).board.just_touched@ == old(self).board.just_touched@,
            final(self).board.delta == old(self).board.delta,
            final(self).board.chain == old(self).board.chain,
            final(self).board.chains_valid == old(self).board.chains_valid,
            final(self).board.next_garbage_id == old(self).board.next_garbage_id,
            final(self).board.bottom == old(self).board.bottom,
            final(self).enemy == old(self).enemy,
            final(self).game_state == old(self).game_state,
            final(self).last_left == old(self).last_left,
            final(self).last_right == old(self).last_right,
            final(self).last_up == old(self).last_up,
            final(self).last_down == old(self).last_down,
            final(self).action_pressed == old(self).action_pressed,
            final(self).boost == old(self).boost,
            final(self).letter_index == old(self).letter_index,
            final(self).cur_letter == old(self).cur_letter,
            final(self)._sender == old(self)._sender,
    {
        if fire {
            if is_captcha {
                self.board.do_captcha_input(dir, values);
            } else {
                match dir {
                    CaptchaInput::LEFT => {
                        if self.board.user_col > 0 {
                            self.board.user_col = self.board.user_col - 1;
                        }
                    },
                    CaptchaInput::RIGHT => {
                        if self.board.user_col < NUM_COLS - 2 {
                            self.board.user_col = self.board.user_col + 1;
                        }
                    },
                    CaptchaInput::UP => {
                        if self.board.user_row < NUM_ROWS - 2 {
                            self.board.user_row = self.board.user_row + 1;
                        }
                    },
                    CaptchaInput::DOWN => {
                        if self.board.user_row > 0 {
                            self.board.user_row = self.board.user_row - 1;
                        }
                    },
                }
            }
        }
    }

    /// `g2` is `g1` after the four directions of `input` are handled (see
    /// `handle_input_rel`).
    pub open spec fn directions_rel(g1: Game, g2: Game, input: Input, values: (u32, u32)) -> bool {
        let plan = g1.spec_input_plan(input);
        let b = g1.board;
        let bot = b.bottom as int;
        let c4 = g1.spec_answered(input, values);
        &&& g2.board.wf()
        &&& g2.board.cells@ == c4
        &&& g2.board.just_touched@ == b.just_touched@
        &&& g2.board.user_col == plan.5
        &&& g2.board.user_row == plan.6
        &&& g2.board.delta == b.delta
        &&& g2.board.chain == b.chain
        &&& g2.board.chains_valid == b.chains_valid
        &&& g2.board.next_garbage_id == b.next_garbage_id
        &&& g2.board.bottom == b.bottom
        &&& g2.last_left == spec_do_input(input.left, g1.last_left).1
        &&& g2.last_right == spec_do_input(input.right, g1.last_right).1
        &&& g2.last_up == spec_do_input(input.up, g1.last_up).1
        &&& g2.last_down == spec_do_input(input.down, g1.last_down).1
        &&& g2.action_pressed == g1.action_pressed
        &&& g2.boost == g1.boost
        &&& g2.enemy == g1.enemy
        &&& g2.game_state == g1.game_state
        &&& g2.letter_index == g1.letter_index
        &&& g2.cur_letter == g1.cur_letter
        &&& g2._sender == g1._sender
    }

    /// Handles the four directions of `input`.
    #[verifier::spinoff_prover]
    #[verifier::rlimit(30)]
    fn handle_directions(&mut self, input: &Input, values: (u32, u32))
        requires
            old(self).input_ok(*input),
        ensures
            Self::directions_rel(*old(self), *final(self), *input, values),
    {
        let is_captcha = self.is_over_captcha();
        let fl = Game::do_input(input.left, &mut self.last_left);
        self.direction(fl, is_captcha, CaptchaInput::LEFT, values);
        let fr = Game::do_input(input.right, &mut self.last_right);
        self.direction(fr, is_captcha, CaptchaInput::RIGHT, values);
        let fu = Game::do_input(input.up, &mut self.last_up);
        self.direction(fu, is_captcha, CaptchaInput::UP, values);
        let fd = Game::do_input(input.down, &mut self.last_down);
        self.direction(fd, is_captcha, CaptchaInput::DOWN, values);
    }

    /// Handles the player's controls for a frame of `dt` microseconds;
    /// `values` are the colours of the blocks that a solved captcha turns
    /// into.
    #[verifier::spinoff_prover]
    pub fn handle_input(&mut self, dt: u32, input: &Input, values: (u32, u32))
        requires
            old(self).input_ok(*input),
        ensures
            Self::handle_input_rel(*old(self), *final(self), dt as int, *input, values),
    {
        let ghost g1 = *self;
        let ghost plan = g1.spec_input_plan(*input);
        self.handle_directions(input, values);
        assert(self.board.user_col == plan.5 && self.board.user_row == plan.6);
        if input.action {
            if !self.action_pressed {
                self.action_pressed = true;
                self.swap_pieces();
            }
        } else {
            self.action_pressed = false;
        }
        if input.alt {
            self.boost = true;
        } else {
            self.boost = false;
        }
        if self.last_left.0 {
            self.last_left.1 = tick_up(self.last_left.1, dt as i64);
        }
        if self.last_right.0 {
            self.last_right.1 = tick_up(self.last_right.1, dt as i64);
        }
        if self.last_up.0 {
            self.last_up.1 = tick_up(self.last_up.1, dt as i64);
        }
        if self.last_down.0 {
            self.last_down.1 = tick_up(self.last_down.1, dt as i64);
        }
    }

    /// The name picker after a frame with `input`, from letter `li`, letter
    /// `cl` and the previous frame's (swap, left, right) buttons: releasing
    /// swap picks the letter (after the third letter the name is done);
    /// releasing left or right steps through the letters, wrapping around.
    /// Returns (letter index, letter, name done).
    pub open spec fn spec_name_pick(li: int, cl: int, prev: (bool, bool, bool), input: Input) -> (int, int, bool) {
        let (a, l, r) = prev;
        let pick = !input.action && a;
        let advance = pick && li == 2;
        let li1 = if pick && li != 2 {
            li + 1
        } else {
            li
        };
        let cl1 = if pick && li != 2 {
            0
        } else {
            cl
        };
        let cl2 = if !input.left && l {
            if cl1 - 1 < 0 {
                NUM_LETTERS - 1
            } else {
                cl1 - 1
            }
        } else {
            cl1
        };
        let cl3 = if !input.right && r {
            if cl2 + 1 > NUM_LETTERS - 1 {
                0
            } else {
                cl2 + 1
            }
        } else {
            cl2
        };
        (li1, cl3, advance)
    }

    /// The name picker's steps stay within `i32`.
    pub open spec fn name_pick_ok(li: int, cl: int, prev: (bool, bool, bool), input: Input) -> bool {
        let (a, l, r) = prev;
        let pick = !input.action && a;
        let cl1 = if pick && li != 2 {
            0
        } else {
            cl
        };
        let cl2 = if !input.left && l {
            if cl1 - 1 < 0 {
                NUM_LETTERS - 1
            } else {
                cl1 - 1
            }
        } else {
            cl1
        };
        &&& pick && li != 2 ==> li < i32::MAX
        &&& !input.left && l ==> cl1 > i32::MIN
        &&& !input.right && r ==> cl2 < i32::MAX
    }

    /// The question the host must answer before the next frame, if any.
    pub open spec fn spec_host_query(self) -> Option<HostQuery> {
        match self.game_state {
            GameState::WaitHighScore => Some(HostQuery::WaitHighScore),
            GameState::_GameOver(t) => if t < 0 {
                Some(HostQuery::WaitOutroComplete)
            } else {
                None
            },
            _ => None,
        }
    }

    /// The question the host must answer before the next frame: while
    /// waiting for the high score check, and once the outro's timer has run
    /// out. Its answer is handed to `update`.
    pub fn host_query(&self) -> (q: Option<HostQuery>)
        ensures
            q == self.spec_host_query(),
    {
        match self.game_state {
            GameState::WaitHighScore => Some(HostQuery::WaitHighScore),
            GameState::_GameOver(t) => if t < 0 {
                Some(HostQuery::WaitOutroComplete)
            } else {
                None
            },
            _ => None,
        }
    }

    /// A frame of `dt` microseconds can run from `self` with `input` and the
    /// random values `rolls`.
    pub open spec fn update_ok(self, input: Input, rolls: FrameRolls) -> bool {
        match self.game_state {
            GameState::Playing => {
                &&& self.input_ok(input)
                &&& self.board.chain.can_inc()
                &&& self.board.user_row < usize::MAX
                &&& self.board.next_garbage_id < u32::MAX
                &&& rolls.wf()
            },
            GameState::ShowHighScore(a, l, r) => Self::name_pick_ok(
                self.letter_index as int,
                self.cur_letter as int,
                (a, l, r),
                input,
            ),
            _ => true,
        }
    }

    /// Everything but the game state and the name picker is the same in
    /// `self` and `other`.
    pub open spec fn same_play(self, other: Game) -> bool {
        &&& self.board == other.board
        &&& self.enemy == other.enemy
        &&& self.last_left == other.last_left
        &&& self.last_right == other.last_right
        &&& self.last_up == other.last_up
        &&& self.last_down == other.last_down
        &&& self.action_pressed == other.action_pressed
        &&& self.boost == other.boost
        &&& self._sender == other._sender
    }

    /// `g2` is `g1` after a frame of play: the input is handled, the board
    /// runs a frame (a closing chain delays the enemy by its multiplier), and
    /// the enemy counts down, dropping a garbage block where it attacks.
    pub open spec fn play_rel(g1: Game, g2: Game, input: Input, dt: int, rolls: FrameRolls) -> bool {
        exists|gm: Game, bu: Board, r: Option<u32>|
            {
                &&& #[trigger] Self::handle_input_rel(g1, gm, dt, input, rolls.captcha)
                &&& #[trigger] Board::update_rel(
                    gm.board,
                    bu,
                    dt,
                    gm.boost,
                    rolls.row@,
                    rolls.dirs@,
                    r,
                )
                &&& bu.next_garbage_id == gm.board.next_garbage_id
                &&& ({
                    let e1 = match r {
                        Some(a) => spec_delayed(gm.enemy.countdown, a),
                        None => gm.enemy.countdown,
                    };
                    let attacks = spec_tick_down(e1, dt) < 0;
                    &&& g2.enemy.countdown == if attacks {
                        COOLDOWN
                    } else {
                        spec_tick_down(e1, dt)
                    }
                    &&& attacks ==> {
                        &&& g2.board.cells@ == bu.cells@.update(
                            crate::board::phys_index(
                                bu.bottom as int,
                                rolls.garbage_start as int,
                                NUM_ROWS - 1,
                            ),
                            crate::cell::Cell::Garbage(bu.next_garbage_id, None),
                        ).update(
                            crate::board::phys_index(
                                bu.bottom as int,
                                rolls.garbage_start + 1,
                                NUM_ROWS - 1,
                            ),
                            crate::cell::Cell::Garbage(bu.next_garbage_id, None),
                        )
                        &&& g2.board.next_garbage_id == bu.next_garbage_id + 1
                        &&& g2.board.same_but_cells_and_flag_and_id(bu)
                    }
                    &&& !attacks ==> g2.board == bu
                })
                &&& g2.board.wf()
                &&& g2.game_state == gm.game_state
                &&& g2.last_left == gm.last_left
                &&& g2.last_right == gm.last_right
                &&& g2.last_up == gm.last_up
                &&& g2.last_down == gm.last_down
                &&& g2.action_pressed == gm.action_pressed
                &&& g2.boost == gm.boost
                &&& g2.letter_index == gm.letter_index
                &&& g2.cur_letter == gm.cur_letter
                &&& g2._sender == gm._sender
            }
    }

    /// `g2` and the call `call` are what a frame of `dt` microseconds with
    /// `input` makes of `g1`, where `reply` answers the host query of `g1`
    /// and `rolls` are the frame's random values.
    pub open spec fn update_rel(
        g1: Game,
        g2: Game,
        input: Input,
        dt: int,
        reply: i32,
        rolls: FrameRolls,
        call: Option<HostCall>,
    ) -> bool {
        match g1.game_state {
            GameState::Intro(t) => {
                &&& g2.same_play(g1)
                &&& g2.letter_index == g1.letter_index
                &&& g2.cur_letter == g1.cur_letter
                &&& if t >= 0 {
                    g2.game_state == GameState::Intro((t - dt) as i64) && call == None::<HostCall>
                } else if input.any {
                    g2.game_state == GameState::Playing && call == Some(HostCall::NewSession)
                } else {
                    g2.game_state == g1.game_state && call == None::<HostCall>
                }
            },
            GameState::Playing => Self::play_rel(g1, g2, input, dt, rolls) && call == None::<
                HostCall,
            >,
            GameState::_Death(t) => {
                let t2 = spec_tick_down(t, dt);
                &&& g2.same_play(g1)
                &&& g2.letter_index == g1.letter_index
                &&& g2.cur_letter == g1.cur_letter
                &&& call == None::<HostCall>
                &&& g2.game_state == if t2 < 0 {
                    GameState::Playing
                } else {
                    GameState::_Death(t2)
                }
            },
            GameState::CheckHighScore => {
                &&& g2.same_play(g1)
                &&& g2.letter_index == g1.letter_index
                &&& g2.cur_letter == g1.cur_letter
                &&& call == Some(HostCall::CheckHighScore)
                &&& g2.game_state == GameState::WaitHighScore
            },
            GameState::WaitHighScore => {
                &&& g2.same_play(g1)
                &&& g2.letter_index == g1.letter_index
                &&& g2.cur_letter == g1.cur_letter
                &&& call == None::<HostCall>
                &&& g2.game_state == if reply == 1 {
                    GameState::Intro(INTRO_TIME)
                } else if reply == 2 {
                    GameState::ShowHighScore(false, false, false)
                } else {
                    g1.game_state
                }
            },
            GameState::ShowHighScore(a, l, r) => {
                let pick = Self::spec_name_pick(
                    g1.letter_index as int,
                    g1.cur_letter as int,
                    (a, l, r),
                    input,
                );
                &&& g2.same_play(g1)
                &&& g2.letter_index == pick.0
                &&& g2.cur_letter == pick.1
                &&& if pick.2 {
                    g2.game_state == GameState::Intro(INTRO_TIME) && call == Some(
                        HostCall::HandleGameOver,
                    )
                } else {
                    g2.game_state == GameState::ShowHighScore(input.action, input.left, input.right)
                        && call == None::<HostCall>
                }
            },
            GameState::_GameOver(t) => {
                &&& g2.same_play(g1)
                &&& g2.letter_index == g1.letter_index
                &&& g2.cur_letter == g1.cur_letter
                &&& call == None::<HostCall>
                &&& g2.game_state == if t >= 0 {
                    GameState::_GameOver((t - dt) as i64)
                } else if reply == 1 {
                    GameState::CheckHighScore
                } else {
                    g1.game_state
                }
            },
        }
    }

    /// A frame of play.
    #[verifier::spinoff_prover]
    fn play(&mut self, input: &Input, dt: u32, rolls: &FrameRolls)
        requires
            old(self).game_state == GameState::Playing,
            old(self).update_ok(*input, *rolls),
        ensures
            Self::play_rel(*old(self), *final(self), *input, dt as int, *rolls),
    {
        self.handle_input(dt, input, rolls.captcha);
        let ghost gm = *self;
        let boost = self.boost;
        let r = self.board.update(dt, boost, rolls.row.as_slice(), rolls.dirs.as_slice());
        let ghost bu = self.board;
        if let Some(a) = r {
            self.enemy.attack(a);
        }
        if self.enemy.update(dt) {
            self.board.attack(rolls.garbage_start);
        }
        assert(Self::handle_input_rel(*old(self), gm, dt as int, *input, rolls.captcha));
        assert(Board::update_rel(gm.board, bu, dt as int, gm.boost, rolls.row@, rolls.dirs@, r));
    }

    /// Runs a frame of `dt` microseconds of the game with the player's
    /// `input`. `reply` is the host's answer to `host_query` (any value where
    /// there is none), `rolls` the random values that the frame may use.
    /// Returns the call that the host must make after the frame, if any.
    #[verifier::spinoff_prover]
    pub fn update(&mut self, input: &Input, dt: u32, reply: i32, rolls: &FrameRolls) -> (call: Option<HostCall>)
        requires
            old(self).update_ok(*input, *rolls),
        ensures
            Self::update_rel(*old(self), *final(self), *input, dt as int, reply, *rolls, call),
    {
        match self.game_state {
            GameState::Intro(timer) => {
                if timer >= 0 {
                    self.game_state = GameState::Intro(timer - dt as i64);
                } else {
                    if input.any {
                        self.game_state = GameState::Playing;
                        return Some(HostCall::NewSession);
                    }
                }
                None
            },
            GameState::Playing => {
                self.play(input, dt, rolls);
                None
            },
            GameState::_Death(timer) => {
                let t = tick_down(timer, dt);
                self.game_state = GameState::_Death(t);
                if t < 0 {
                    self.game_state = GameState::Playing;
                }
                None
            },
            GameState::CheckHighScore => {
                self.game_state = GameState::WaitHighScore;
                Some(HostCall::CheckHighScore)
            },
            GameState::WaitHighScore => {
                if reply == 1 {
                    self.game_state = GameState::Intro(INTRO_TIME);
                } else if reply == 2 {
                    self.game_state = GameState::ShowHighScore(false, false, false);
                }
                None
            },
            GameState::ShowHighScore(action, left, right) => {
                let mut advance = false;
                if !input.action && action {
                    if self.letter_index == 2 {
                        advance = true;
                    } else {
                        self.letter_index = self.letter_index + 1;
                        self.cur_letter = 0;
                    }
                }
                if !input.left && left {
                    self.cur_letter = self.cur_letter - 1;
                    if self.cur_letter < 0 {
                        self.cur_letter = NUM_LETTERS - 1;
                    }
                }
                if !input.right && right {
                    self.cur_letter = self.cur_letter + 1;
                    if self.cur_letter > NUM_LETTERS - 1 {
                        self.cur_letter = 0;
                    }
                }
                self.game_state = GameState::ShowHighScore(input.action, input.left, input.right);
                if advance {
                    self.game_state = GameState::Intro(INTRO_TIME);
                    return Some(HostCall::HandleGameOver);
                }
                None
            },
            GameState::_GameOver(timer) => {
                if timer >= 0 {
                    self.game_state = GameState::_GameOver(timer - dt as i64);
                } else {
                    if reply == 1 {
                        self.game_state = GameState::CheckHighScore;
                    }
                }
                None
            },
        }
    }

    /// Sends `event` to the rest of the program, leaving the game as it was.
    /// No event exists, so this is never called.
    pub fn _send_game_event(&mut self, event: GameEvent)
        ensures
            *final(self) == *old(self),
    {
        crate::channel::send_event(&self._sender, event);
    }
}

/// The game together with the current state of the player's controls.
pub struct GameData {
    pub game: Game,
    pub input: Input,
}

impl GameData {
    /// A new game in its intro, with no control pressed.
    pub fn new(tx: Sender<GameEvent>) -> (d: GameData)
        ensures
            d.game.board.is_fresh(),
            d.game.game_state == GameState::Intro(INTRO_TIME),
            d.game.enemy.countdown == COOLDOWN,
            d.game.last_left == (false, 0i64),
            d.game.last_right == (false, 0i64),
            d.game.last_up == (false, 0i64),
            d.game.last_down == (false, 0i64),
            !d.game.action_pressed,
            !d.game.boost,
            d.game.letter_index == 0,
            d.game.cur_letter == 0,
            !d.input.any && !d.input.left && !d.input.right && !d.input.up && !d.input.down
                && !d.input.action && !d.input.alt,
    {
        let game = Game::new(tx);
        GameData { game: game, input: Input::default() }
    }
}

} // verus!
