use vstd::prelude::*;
use crate::board::{NUM_COLS, NUM_ROWS};
use crate::game::{
    Game, GameState, HostCall, FrameRolls, INTRO_TIME, NUM_LETTERS, spec_do_input,
};
use crate::input::Input;

verus! {

/// Where no captcha sits under the cursor, the directions move the cursor
/// one square at a time and keep it on the board: down lowers its row by
/// one (unless it is on the bottom row), up raises it by one (unless it is
/// just below the top row), left and right move it by one column within
/// the first five; a row changes only where up or down fires, a column only
/// where left or right fires, and nothing moves where no direction fires.
pub proof fn law_directions_move_the_cursor(
    g1: Game,
    g2: Game,
    dt: int,
    input: Input,
    values: (u32, u32),
)
    requires
        Game::handle_input_rel(g1, g2, dt, input, values),
        !g1.spec_over_captcha(),
    ensures
        ({
            let fl = spec_do_input(input.left, g1.last_left).0;
            let fr = spec_do_input(input.right, g1.last_right).0;
            let fu = spec_do_input(input.up, g1.last_up).0;
            let fd = spec_do_input(input.down, g1.last_down).0;
            let (uc, ur) = (g1.board.user_col as int, g1.board.user_row as int);
            let (uc2, ur2) = (g2.board.user_col as int, g2.board.user_row as int);
            &&& !fu && !fd ==> ur2 == ur
            &&& !fl && !fr ==> uc2 == uc
            &&& fd && !fu ==> ur2 == if ur > 0 {
                ur - 1
            } else {
                ur
            }
            &&& fu && !fd ==> ur2 == if ur < NUM_ROWS - 2 {
                ur + 1
            } else {
                ur
            }
            &&& fl && !fr ==> uc2 == if uc > 0 {
                uc - 1
            } else {
                uc
            }
            &&& fr && !fl ==> uc2 == if uc < NUM_COLS - 2 {
                uc + 1
            } else {
                uc
            }
            &&& !fd ==> ur2 >= ur
            &&& !fu ==> ur2 <= ur
            &&& ur - 1 <= ur2 <= ur + 1
            &&& uc - 1 <= uc2 <= uc + 1
        }),
{
}

/// Entering a name: releasing the swap button picks the letter, and on the
/// third letter ends the entry (the game goes back to its intro and the
/// host handles the game over); before that the next letter starts at the
/// first letter of the alphabet. Releasing left or right steps the letter
/// back or forward, wrapping around the alphabet. With no button released,
/// the letter and its place stay.
pub proof fn law_name_entry(
    g1: Game,
    g2: Game,
    input: Input,
    dt: int,
    reply: i32,
    rolls: FrameRolls,
    call: Option<HostCall>,
    a: bool,
    l: bool,
    r: bool,
)
    requires
        g1.game_state == GameState::ShowHighScore(a, l, r),
        Game::update_rel(g1, g2, input, dt, reply, rolls, call),
    ensures
        ({
            let pick = a && !input.action;
            let back = l && !input.left;
            let fwd = r && !input.right;
            let (li, cl) = (g1.letter_index as int, g1.cur_letter as int);
            &&& pick && li == 2 ==> g2.game_state == GameState::Intro(INTRO_TIME) && call == Some(
                HostCall::HandleGameOver,
            )
            &&& !(pick && li == 2) ==> g2.game_state == GameState::ShowHighScore(
                input.action,
                input.left,
                input.right,
            ) && call == None::<HostCall>
            &&& pick && li != 2 ==> g2.letter_index == li + 1
            &&& !pick ==> g2.letter_index == li
            &&& pick && li != 2 && !back && !fwd ==> g2.cur_letter == 0
            &&& !pick && !back && !fwd ==> g2.cur_letter == cl
            &&& !pick && back && !fwd && 0 < cl < NUM_LETTERS ==> g2.cur_letter == cl - 1
            &&& !pick && back && !fwd && cl == 0 ==> g2.cur_letter == NUM_LETTERS - 1
            &&& !pick && fwd && !back && 0 <= cl < NUM_LETTERS - 1 ==> g2.cur_letter == cl + 1
            &&& !pick && fwd && !back && cl == NUM_LETTERS - 1 ==> g2.cur_letter == 0
        }),
{
}

} // verus!
