use std::sync::mpsc::channel;
use tetra_attack::board::NUM_COLS;
use tetra_attack::cell::Cell;
use tetra_attack::game::{FrameRolls, Game, GameData, GameState, HostCall, HostQuery, INTRO_TIME};
use tetra_attack::input::Input;

fn game() -> Game {
    let (tx, _rx) = channel();
    Game::new(tx)
}

fn rolls() -> FrameRolls {
    FrameRolls {
        row: vec![0, 1, 2, 3, 0, 1],
        dirs: vec![0; 72],
        captcha: (4, 5),
        garbage_start: 1,
    }
}

fn no_input() -> Input {
    Input::default()
}

#[test]
fn new_game_starts_in_the_intro() {
    let g = game();
    assert!(g.game_state == GameState::Intro(INTRO_TIME));
    assert_eq!((g.board.user_col, g.board.user_row), (2, 0));
    assert_eq!((g.letter_index, g.cur_letter), (0, 0));
    let (tx, _rx) = channel();
    let d = GameData::new(tx);
    assert!(!d.input.any);
    assert!(d.game.game_state == GameState::Intro(INTRO_TIME));
}

#[test]
fn held_direction_repeats_after_half_a_second() {
    let mut dir = (false, 0i64);
    assert!(Game::do_input(true, &mut dir));
    assert_eq!(dir, (true, 0));
    dir.1 = 499_999;
    assert!(!Game::do_input(true, &mut dir));
    dir.1 = 500_000;
    assert!(!Game::do_input(true, &mut dir));
    dir.1 = 500_001;
    assert!(Game::do_input(true, &mut dir));
    assert!(!Game::do_input(false, &mut dir));
    assert_eq!(dir, (false, 0));
}

#[test]
fn cursor_moves_and_stays_on_the_board() {
    let mut g = game();
    let mut input = no_input();
    input.left = true;
    g.handle_input(10, &input, (0, 0));
    assert_eq!(g.board.user_col, 1);
    input.left = false;
    g.handle_input(10, &input, (0, 0));
    input.left = true;
    g.handle_input(10, &input, (0, 0));
    g.handle_input(10, &input, (0, 0));
    assert_eq!(g.board.user_col, 0);
    input.left = false;
    g.handle_input(10, &input, (0, 0));
    input.left = true;
    g.handle_input(10, &input, (0, 0));
    assert_eq!(g.board.user_col, 0);
    // moving right stops at column four
    let mut input = no_input();
    for _ in 0..10 {
        input.right = true;
        g.handle_input(10, &input, (0, 0));
        input.right = false;
        g.handle_input(10, &input, (0, 0));
    }
    assert_eq!(g.board.user_col, NUM_COLS - 2);
    for _ in 0..20 {
        input.up = true;
        g.handle_input(10, &input, (0, 0));
        input.up = false;
        g.handle_input(10, &input, (0, 0));
    }
    assert_eq!(g.board.user_row, 10);
}

#[test]
fn held_direction_counts_time_held() {
    let mut g = game();
    let mut input = no_input();
    input.down = true;
    g.handle_input(300_000, &input, (0, 0));
    assert_eq!(g.last_down, (true, 300_000));
    g.handle_input(300_000, &input, (0, 0));
    assert_eq!(g.last_down, (true, 600_000));
}

#[test]
fn a_press_of_swap_swaps_once() {
    let mut g = game();
    *g.board.get_cell_mut(2, 0) = Cell::Single(1, None);
    *g.board.get_cell_mut(3, 0) = Cell::Single(2, None);
    let mut input = no_input();
    input.action = true;
    g.handle_input(10, &input, (0, 0));
    assert_eq!(g.board.get_cell(2, 0).get_val(), 2);
    g.handle_input(10, &input, (0, 0));
    assert_eq!(g.board.get_cell(2, 0).get_val(), 2);
    input.action = false;
    g.handle_input(10, &input, (0, 0));
    assert!(!g.action_pressed);
}

#[test]
fn boost_follows_its_button() {
    let mut g = game();
    let mut input = no_input();
    input.alt = true;
    g.handle_input(10, &input, (0, 0));
    assert!(g.boost);
    input.alt = false;
    g.handle_input(10, &input, (0, 0));
    assert!(!g.boost);
}

#[test]
fn captcha_takes_the_directions() {
    let mut g = game();
    *g.board.get_cell_mut(2, 0) = Cell::Captcha(1000, 100, None, false);
    *g.board.get_cell_mut(3, 0) = Cell::Captcha(1000, 101, None, false);
    let mut input = no_input();
    input.left = true;
    g.handle_input(10, &input, (4, 5));
    assert_eq!(g.board.user_col, 2);
    assert!(matches!(g.board.get_cell(2, 0), Cell::Captcha(1000, 100, None, true)));
    input.left = false;
    input.right = true;
    g.handle_input(10, &input, (4, 5));
    assert_eq!(g.board.user_col, 2);
    assert!(matches!(g.board.get_cell(2, 0), Cell::Single(4, None)));
    assert!(matches!(g.board.get_cell(3, 0), Cell::Single(5, None)));
}

#[test]
fn intro_waits_then_a_key_starts_a_session() {
    let mut g = game();
    let mut input = no_input();
    input.any = true;
    assert_eq!(g.update(&input, 400_000, 0, &rolls()), None);
    assert!(g.game_state == GameState::Intro(100_000));
    assert_eq!(g.update(&input, 200_000, 0, &rolls()), None);
    assert!(g.game_state == GameState::Intro(-100_000));
    assert_eq!(g.update(&no_input(), 10, 0, &rolls()), None);
    assert!(g.game_state == GameState::Intro(-100_000));
    assert_eq!(g.update(&input, 10, 0, &rolls()), Some(HostCall::NewSession));
    assert!(g.game_state == GameState::Playing);
}

#[test]
fn enemy_attack_drops_garbage_while_playing() {
    let mut g = game();
    g.game_state = GameState::Playing;
    g.enemy.countdown = 5;
    assert_eq!(g.update(&no_input(), 10, 0, &rolls()), None);
    assert_eq!(g.enemy.countdown, 30_000_000);
    assert!(matches!(g.board.get_cell(1, 11), Cell::Garbage(1000, None)));
    assert!(matches!(g.board.get_cell(2, 11), Cell::Garbage(1000, None)));
}

#[test]
fn closing_chain_delays_the_enemy() {
    let mut g = game();
    g.game_state = GameState::Playing;
    g.board.chain.inc();
    g.enemy.countdown = 10_000_000;
    g.update(&no_input(), 5_000_000, 0, &rolls());
    assert_eq!(g.enemy.countdown, 9_000_000);
}

#[test]
fn high_score_flow() {
    let mut g = game();
    g.game_state = GameState::CheckHighScore;
    assert_eq!(g.host_query(), None);
    assert_eq!(g.update(&no_input(), 10, 0, &rolls()), Some(HostCall::CheckHighScore));
    assert!(g.game_state == GameState::WaitHighScore);
    assert_eq!(g.host_query(), Some(HostQuery::WaitHighScore));
    assert_eq!(g.update(&no_input(), 10, 0, &rolls()), None);
    assert!(g.game_state == GameState::WaitHighScore);
    assert_eq!(g.update(&no_input(), 10, 2, &rolls()), None);
    assert!(g.game_state == GameState::ShowHighScore(false, false, false));
    g.game_state = GameState::WaitHighScore;
    g.update(&no_input(), 10, 1, &rolls());
    assert!(g.game_state == GameState::Intro(INTRO_TIME));
}

#[test]
fn name_picker_wraps_and_finishes_after_three_letters() {
    let mut g = game();
    g.game_state = GameState::ShowHighScore(false, false, false);
    let mut input = no_input();
    input.left = true;
    g.update(&input, 10, 0, &rolls());
    assert!(g.game_state == GameState::ShowHighScore(false, true, false));
    g.update(&no_input(), 10, 0, &rolls());
    assert_eq!(g.cur_letter, 25);
    input = no_input();
    input.right = true;
    g.update(&input, 10, 0, &rolls());
    g.update(&no_input(), 10, 0, &rolls());
    assert_eq!(g.cur_letter, 0);
    for i in 0..2 {
        let mut press = no_input();
        press.action = true;
        assert_eq!(g.update(&press, 10, 0, &rolls()), None);
        assert_eq!(g.update(&no_input(), 10, 0, &rolls()), None);
        assert_eq!(g.letter_index, i + 1);
    }
    let mut press = no_input();
    press.action = true;
    g.update(&press, 10, 0, &rolls());
    assert_eq!(g.update(&no_input(), 10, 0, &rolls()), Some(HostCall::HandleGameOver));
    assert!(g.game_state == GameState::Intro(INTRO_TIME));
}

#[test]
fn game_over_waits_for_the_outro() {
    let mut g = game();
    g.game_state = GameState::_GameOver(100);
    assert_eq!(g.host_query(), None);
    g.update(&no_input(), 200, 0, &rolls());
    assert!(g.game_state == GameState::_GameOver(-100));
    assert_eq!(g.host_query(), Some(HostQuery::WaitOutroComplete));
    g.update(&no_input(), 10, 0, &rolls());
    assert!(g.game_state == GameState::_GameOver(-100));
    g.update(&no_input(), 10, 1, &rolls());
    assert!(g.game_state == GameState::CheckHighScore);
}

#[test]
fn death_pause_returns_to_play() {
    let mut g = game();
    g.game_state = GameState::_Death(100);
    g.update(&no_input(), 100, 0, &rolls());
    assert!(g.game_state == GameState::_Death(0));
    g.update(&no_input(), 1, 0, &rolls());
    assert!(g.game_state == GameState::Playing);
}
