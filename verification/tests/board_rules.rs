use tetra_attack::board::{Board, CaptchaInput, NUM_COLS, NUM_ROWS, START_GARBAGE_ID};
use tetra_attack::cell::Cell;

fn put(b: &mut Board, x: usize, y: usize, c: Cell) {
    *b.get_cell_mut(x, y) = c;
}

fn count_blocks(b: &Board) -> Vec<u32> {
    let mut v: Vec<u32> = Vec::new();
    for c in &b.cells {
        if let Cell::Single(val, _) = c {
            v.push(*val);
        }
    }
    v.sort();
    v
}

#[test]
fn new_board_is_empty_with_cursor_in_column_two() {
    let b = Board::new();
    assert_eq!(b.cells.len(), NUM_ROWS * NUM_COLS);
    assert!(b.cells.iter().all(|c| matches!(c, Cell::Empty)));
    assert!(b.just_touched.iter().all(|t| !*t));
    assert_eq!((b.user_col, b.user_row, b.bottom, b.delta), (2, 0, 0, 0));
    assert_eq!(b.next_garbage_id, START_GARBAGE_ID);
    assert_eq!(b.chain.get_value(), None);
    assert!(!b.chains_valid);
}

#[test]
fn rows_are_read_from_the_bottom_row_up() {
    let mut b = Board::new();
    b.bottom = 3;
    b.cells[3 * NUM_COLS + 1] = Cell::Single(4, None);
    b.cells[0] = Cell::Single(5, None);
    assert_eq!(b.get_cell(1, 0).get_val(), 4);
    // logical row 9 wraps to storage row 0
    assert_eq!(b.get_cell(0, 9).get_val(), 5);
    assert_eq!(b.get_cell(0, 21).get_val(), 5);
}

#[test]
fn player_swap_exchanges_and_marks() {
    let mut b = Board::new();
    put(&mut b, 0, 0, Cell::Single(1, None));
    put(&mut b, 1, 0, Cell::Single(2, None));
    b.swap_cells(0, 0, 1, 0, true);
    assert_eq!(b.get_cell(0, 0).get_val(), 2);
    assert_eq!(b.get_cell(1, 0).get_val(), 1);
    assert!(b.just_touched[0] && b.just_touched[1]);
    assert!(!b.just_touched[2]);
}

#[test]
fn swap_refused_for_garbage_and_falling_blocks() {
    let mut b = Board::new();
    put(&mut b, 0, 0, Cell::Garbage(1000, None));
    put(&mut b, 1, 0, Cell::Single(2, None));
    b.swap_cells(0, 0, 1, 0, true);
    assert!(matches!(b.get_cell(0, 0), Cell::Garbage(1000, None)));
    // the game's own swap may move garbage down, but never onto garbage
    b.swap_cells(0, 0, 1, 0, false);
    assert!(matches!(b.get_cell(1, 0), Cell::Garbage(1000, None)));
    b.swap_cells(0, 0, 1, 0, false);
    assert!(matches!(b.get_cell(1, 0), Cell::Garbage(1000, None)));
    put(&mut b, 2, 0, Cell::Single(3, Some(10)));
    put(&mut b, 3, 0, Cell::Single(4, None));
    b.swap_cells(2, 0, 3, 0, true);
    assert_eq!(b.get_cell(2, 0).get_val(), 3);
    assert!(!b.just_touched[2]);
}

#[test]
fn swapping_twice_restores_the_squares() {
    let mut b = Board::new();
    put(&mut b, 2, 3, Cell::Single(1, None));
    put(&mut b, 3, 3, Cell::Empty);
    let before = b.cells.clone();
    b.swap_cells(2, 3, 3, 3, true);
    assert_eq!(b.get_cell(3, 3).get_val(), 1);
    b.swap_cells(2, 3, 3, 3, true);
    for i in 0..before.len() {
        assert_eq!(format!("{:?}", b.cells[i]), format!("{:?}", before[i]));
    }
}

#[test]
fn what_a_block_can_fall_into() {
    let mut b = Board::new();
    assert!(!b.below_is_empty(0, 0));
    assert!(b.below_is_empty(0, 1));
    put(&mut b, 0, 0, Cell::Single(1, Some(0)));
    assert!(!b.below_is_empty(0, 1));
    put(&mut b, 0, 1, Cell::Single(1, Some(0)));
    assert!(b.below_is_empty(0, 2));
    put(&mut b, 0, 1, Cell::Single(1, None));
    assert!(!b.below_is_empty(0, 2));
    put(&mut b, 0, 1, Cell::Garbage(1000, Some(2)));
    assert!(b.below_is_empty(0, 2));
    put(&mut b, 0, 1, Cell::Captcha(1000, 100, Some(2), false));
    assert!(!b.below_is_empty(0, 2));
}

#[test]
fn new_bottom_row_fills_the_bottom() {
    let mut b = Board::new();
    b.new_bottom_row(&[0, 1, 2, 3, 4, 5]);
    for x in 0..NUM_COLS {
        assert!(matches!(b.get_cell(x, 0), Cell::Single(v, None) if *v == x as u32));
        assert!(matches!(b.get_cell(x, 1), Cell::Empty));
    }
}

#[test]
fn start_state_stacks_rows() {
    let mut b = Board::new();
    let values: Vec<u32> = (0..30).collect();
    b.init_with_state(5, &values);
    assert_eq!(b.user_row, 2);
    assert_eq!(b.bottom, 8);
    for y in 0..5 {
        for x in 0..NUM_COLS {
            let want = values[(4 - y) * NUM_COLS + x];
            assert!(matches!(b.get_cell(x, y), Cell::Single(v, None) if *v == want));
        }
    }
    assert!(matches!(b.get_cell(0, 5), Cell::Empty));
}

#[test]
fn start_state_taller_than_board_scrolls_out() {
    let mut b = Board::new();
    let values: Vec<u32> = (0..84).collect();
    b.init_with_state(14, &values);
    assert_eq!(b.user_row, 7);
    for y in 0..NUM_ROWS {
        let want = values[(13 - y) * NUM_COLS];
        assert!(matches!(b.get_cell(0, y), Cell::Single(v, None) if *v == want));
    }
}

#[test]
fn garbage_drops_into_the_top_row() {
    let mut b = Board::new();
    b.attack(2);
    assert!(matches!(b.get_cell(2, 11), Cell::Garbage(1000, None)));
    assert!(matches!(b.get_cell(3, 11), Cell::Garbage(1000, None)));
    assert_eq!(b.next_garbage_id, 1001);
    b.new_garbage(4);
    assert!(matches!(b.get_cell(5, 11), Cell::Garbage(1001, None)));
}

#[test]
fn captcha_is_solved_left_then_right() {
    let mut b = Board::new();
    b.user_col = 1;
    b.user_row = 2;
    put(&mut b, 1, 2, Cell::Captcha(1000, 101, None, false));
    put(&mut b, 2, 2, Cell::Captcha(1000, 103, None, false));
    assert!(b.is_over_captcha());
    b.do_captcha_input(CaptchaInput::LEFT, (7, 8));
    assert!(matches!(b.get_cell(1, 2), Cell::Captcha(1000, 101, None, false)));
    b.do_captcha_input(CaptchaInput::RIGHT, (7, 8));
    assert!(matches!(b.get_cell(1, 2), Cell::Captcha(1000, 101, None, true)));
    b.do_captcha_input(CaptchaInput::UP, (7, 8));
    assert!(matches!(b.get_cell(2, 2), Cell::Captcha(1000, 103, None, false)));
    b.do_captcha_input(CaptchaInput::DOWN, (7, 8));
    assert!(matches!(b.get_cell(1, 2), Cell::Single(7, None)));
    assert!(matches!(b.get_cell(2, 2), Cell::Single(8, None)));
    assert!(!b.is_over_captcha());
}

#[test]
fn captcha_sprites_equal_their_direction() {
    assert!(100u32 == CaptchaInput::LEFT);
    assert!(101u32 == CaptchaInput::RIGHT);
    assert!(102u32 == CaptchaInput::UP);
    assert!(103u32 == CaptchaInput::DOWN);
    assert!(100u32 != CaptchaInput::DOWN);
}

#[test]
fn expired_deletes_start_staggered_death_animations() {
    let mut b = Board::new();
    let ch = b.chain;
    put(&mut b, 0, 0, Cell::QueuedDelete(1, 1, 0, 100, ch));
    put(&mut b, 0, 1, Cell::QueuedDelete(2, 1, 5, 100, ch));
    put(&mut b, 1, 0, Cell::QueuedDelete(3, 1, 0, 1_000_000, ch));
    b.check_queued_deletes(200);
    assert!(matches!(b.get_cell(0, 0), Cell::DeathAnim(1, 0, 100_000, 0)));
    assert!(matches!(b.get_cell(0, 1), Cell::DeathAnim(2, 5, 200_000, 0)));
    assert!(matches!(b.get_cell(1, 0), Cell::QueuedDelete(3, 1, 0, 999_800, _)));
    assert!(b.chains_valid);
}

#[test]
fn death_animation_waits_then_plays_then_clears() {
    let mut b = Board::new();
    put(&mut b, 0, 0, Cell::DeathAnim(1, 0, 50_000, 0));
    b.check_death_anims(60_000);
    assert!(matches!(b.get_cell(0, 0), Cell::DeathAnim(1, 0, 0, 100_000)));
    assert!(b.chains_valid);
    b.chains_valid = false;
    b.check_death_anims(40_000);
    assert!(matches!(b.get_cell(0, 0), Cell::DeathAnim(1, 0, 0, 60_000)));
    b.check_death_anims(60_000);
    assert!(matches!(b.get_cell(0, 0), Cell::Empty));
    assert!(b.chains_valid);
}

fn dirs() -> Vec<u32> {
    (0..72).map(|i| (i % 4) as u32).collect()
}

#[test]
fn three_in_a_row_are_queued_for_deletion() {
    let mut b = Board::new();
    for x in 0..3 {
        put(&mut b, x, 0, Cell::Single(2, None));
    }
    put(&mut b, 3, 0, Cell::Single(3, None));
    b.check_matches(&dirs());
    for x in 0..3 {
        assert!(matches!(b.get_cell(x, 0), Cell::QueuedDelete(2, 1, 0, 500_000, _)));
    }
    assert!(matches!(b.get_cell(3, 0), Cell::Single(3, None)));
    // no movement in this frame: the chain does not start
    assert_eq!(b.chain.get_value(), None);
}

#[test]
fn match_after_movement_continues_the_chain() {
    let mut b = Board::new();
    b.chains_valid = true;
    for y in 0..3 {
        put(&mut b, 4, y, Cell::Single(5, None));
    }
    b.check_matches(&dirs());
    assert_eq!(b.chain.get_value(), Some(2));
    if let Cell::QueuedDelete(5, 1, 0, 500_000, ch) = b.get_cell(4, 1) {
        assert_eq!(ch.get_value(), Some(2));
    } else {
        panic!("not queued");
    }
}

#[test]
fn match_on_swapped_squares_ends_the_chain() {
    let mut b = Board::new();
    b.chains_valid = true;
    b.chain.inc();
    for x in 0..3 {
        put(&mut b, x, 0, Cell::Single(2, None));
    }
    b.just_touched[1] = true;
    b.check_matches(&dirs());
    assert_eq!(b.chain.get_value(), None);
    assert!(matches!(b.get_cell(1, 0), Cell::QueuedDelete(2, 1, 0, 500_000, _)));
}

#[test]
fn falling_block_breaks_a_match() {
    let mut b = Board::new();
    put(&mut b, 0, 0, Cell::Single(2, None));
    put(&mut b, 1, 0, Cell::Single(2, Some(3)));
    put(&mut b, 2, 0, Cell::Single(2, None));
    b.check_matches(&dirs());
    for x in 0..3 {
        assert!(matches!(b.get_cell(x, 0), Cell::Single(2, _)));
    }
}

#[test]
fn top_row_takes_no_part_in_vertical_matches() {
    let mut b = Board::new();
    for y in 9..12 {
        put(&mut b, 0, y, Cell::Single(1, None));
    }
    for y in 8..11 {
        put(&mut b, 2, y, Cell::Single(1, None));
    }
    b.check_matches(&dirs());
    for y in 9..12 {
        assert!(matches!(b.get_cell(0, y), Cell::Single(1, None)));
    }
    for y in 8..11 {
        assert!(matches!(b.get_cell(2, y), Cell::QueuedDelete(1, 1, 0, 500_000, _)));
    }
}

#[test]
fn overlapping_runs_are_numbered_in_scan_order() {
    let mut b = Board::new();
    for x in 0..4 {
        put(&mut b, x, 0, Cell::Single(3, None));
    }
    b.check_matches(&dirs());
    // run from column 0 is 1, from column 1 is 2 and covers columns 1..3
    assert!(matches!(b.get_cell(0, 0), Cell::QueuedDelete(3, 1, 0, 500_000, _)));
    assert!(matches!(b.get_cell(1, 0), Cell::QueuedDelete(3, 2, 0, 500_000, _)));
    assert!(matches!(b.get_cell(3, 0), Cell::QueuedDelete(3, 2, 0, 500_000, _)));
}

#[test]
fn match_next_to_garbage_turns_it_into_captchas() {
    let mut b = Board::new();
    for x in 0..3 {
        put(&mut b, x, 0, Cell::Single(2, None));
    }
    put(&mut b, 0, 1, Cell::Garbage(1000, None));
    put(&mut b, 1, 1, Cell::Garbage(1000, None));
    put(&mut b, 4, 1, Cell::Garbage(1001, None));
    b.check_matches(&dirs());
    // storage index of (x, y) is y * 6 + x with the bottom row stored first
    assert!(matches!(b.get_cell(0, 1), Cell::Captcha(1000, 102, None, false)));
    assert!(matches!(b.get_cell(1, 1), Cell::Captcha(1000, 103, None, false)));
    assert!(matches!(b.get_cell(4, 1), Cell::Garbage(1001, None)));
}

#[test]
fn garbage_right_of_a_match_turns_into_captchas() {
    let mut b = Board::new();
    for x in 0..3 {
        put(&mut b, x, 0, Cell::Single(2, None));
    }
    put(&mut b, 3, 0, Cell::Garbage(1000, None));
    put(&mut b, 4, 0, Cell::Garbage(1000, None));
    put(&mut b, 5, 1, Cell::Garbage(1001, None));
    b.check_matches(&dirs());
    // storage indices 3 and 4
    assert!(matches!(b.get_cell(3, 0), Cell::Captcha(1000, 103, None, false)));
    assert!(matches!(b.get_cell(4, 0), Cell::Captcha(1000, 100, None, false)));
    assert!(matches!(b.get_cell(5, 1), Cell::Garbage(1001, None)));
}

#[test]
fn garbage_above_a_match_across_the_storage_seam_is_triggered() {
    let mut b = Board::new();
    b.bottom = 11;
    for x in 0..3 {
        put(&mut b, x, 0, Cell::Single(2, None));
    }
    // logical row 1 is storage row 0
    put(&mut b, 1, 1, Cell::Garbage(1000, None));
    b.check_matches(&dirs());
    assert!(matches!(b.get_cell(1, 1), Cell::Captcha(1000, 101, None, false)));
}

#[test]
fn top_row_match_leaves_bottom_row_garbage_alone() {
    let mut b = Board::new();
    b.bottom = 1;
    for x in 0..3 {
        put(&mut b, x, 11, Cell::Single(2, None));
    }
    put(&mut b, 1, 0, Cell::Garbage(1000, None));
    b.check_matches(&dirs());
    assert!(matches!(b.get_cell(0, 11), Cell::QueuedDelete(2, 1, 0, 500_000, _)));
    assert!(matches!(b.get_cell(1, 0), Cell::Garbage(1000, None)));
}

#[test]
fn block_falls_four_squares_a_second() {
    let mut b = Board::new();
    put(&mut b, 0, 2, Cell::Single(1, None));
    b.do_gravity(100_000);
    assert!(matches!(b.get_cell(0, 2), Cell::Single(1, Some(400_000))));
    assert!(b.chains_valid);
    b.do_gravity(150_000);
    assert!(matches!(b.get_cell(0, 1), Cell::Single(1, Some(0))));
    assert!(matches!(b.get_cell(0, 2), Cell::Empty));
    b.do_gravity(250_000);
    assert!(matches!(b.get_cell(0, 0), Cell::Single(1, Some(0))));
    b.do_gravity(250_000);
    // on the floor it comes to rest (the floor row is left as it is)
    assert!(matches!(b.get_cell(0, 0), Cell::Single(1, Some(0))));
}

#[test]
fn block_on_a_resting_block_comes_to_rest() {
    let mut b = Board::new();
    put(&mut b, 0, 0, Cell::Single(1, None));
    put(&mut b, 0, 1, Cell::Single(2, Some(300)));
    b.do_gravity(1000);
    assert!(matches!(b.get_cell(0, 1), Cell::Single(2, None)));
    // any square with room below it, even an empty one, counts as movement
    assert!(b.chains_valid);
}

#[test]
fn garbage_falls_only_as_a_whole() {
    let mut b = Board::new();
    put(&mut b, 0, 5, Cell::Garbage(1000, Some(7)));
    put(&mut b, 1, 5, Cell::Garbage(1000, Some(7)));
    put(&mut b, 1, 4, Cell::Single(1, None));
    put(&mut b, 1, 3, Cell::Single(1, None));
    put(&mut b, 1, 2, Cell::Single(1, None));
    put(&mut b, 1, 1, Cell::Single(1, None));
    put(&mut b, 1, 0, Cell::Single(1, None));
    b.do_gravity(100_000);
    assert!(matches!(b.get_cell(0, 5), Cell::Garbage(1000, None)));
    assert!(matches!(b.get_cell(1, 5), Cell::Garbage(1000, None)));
    put(&mut b, 1, 4, Cell::Empty);
    b.do_gravity(100_000);
    assert!(matches!(b.get_cell(0, 5), Cell::Garbage(1000, Some(400_000))));
    assert!(matches!(b.get_cell(1, 5), Cell::Garbage(1000, Some(400_000))));
}

#[test]
fn gravity_keeps_every_block() {
    let mut b = Board::new();
    put(&mut b, 0, 3, Cell::Single(1, Some(900_000)));
    put(&mut b, 2, 6, Cell::Single(2, None));
    put(&mut b, 2, 5, Cell::Single(3, Some(999_999)));
    put(&mut b, 5, 1, Cell::Single(4, None));
    let before = count_blocks(&b);
    for _ in 0..10 {
        b.do_gravity(200_000);
        assert_eq!(count_blocks(&b), before);
    }
}

#[test]
fn scroll_moves_rows_and_cursor_up() {
    let mut b = Board::new();
    put(&mut b, 1, 0, Cell::Single(4, None));
    b.user_col = 1;
    b.delta = 15_999_900;
    let r = b.update(160, false, &[0, 1, 2, 3, 0, 1], &dirs());
    assert_eq!(r, None);
    assert_eq!(b.user_row, 1);
    assert_eq!(b.delta, 60);
    assert_eq!(b.bottom, 11);
    assert!(matches!(b.get_cell(1, 1), Cell::Single(4, None)));
    assert!(matches!(b.get_cell(1, 0), Cell::Single(1, None)));
    assert!(!b.chains_valid);
    assert!(b.just_touched.iter().all(|t| !*t));
}

#[test]
fn boost_scrolls_five_rows_a_second() {
    let mut b = Board::new();
    b.update(100_000, true, &[0, 1, 2, 3, 0, 1], &dirs());
    // half a row
    assert_eq!(b.delta, 8_000_000);
    b.update(100_000, false, &[0, 1, 2, 3, 0, 1], &dirs());
    assert_eq!(b.delta, 8_100_000);
}

#[test]
fn board_frame_reports_a_closing_chain() {
    let mut b = Board::new();
    b.chain.inc();
    b.chain.inc();
    let r = b.update(5_000_000, false, &[0, 1, 2, 3, 0, 1], &dirs());
    assert_eq!(r, Some(3));
    assert_eq!(b.chain.get_value(), None);
}

#[test]
fn scroll_wraps_in_the_frame_that_reaches_a_row() {
    let mut b = Board::new();
    b.delta = 15_840_000;
    b.update(10_000, true, &[0, 1, 2, 3, 0, 1], &dirs());
    assert_eq!(b.delta, 640_000);
    assert_eq!(b.user_row, 1);
    assert_eq!(b.bottom, 11);
    b.update(10_000, true, &[0, 1, 2, 3, 0, 1], &dirs());
    assert_eq!(b.delta, 1_440_000);
    assert_eq!(b.user_row, 1);
}

#[test]
fn boosted_frame_from_nine_tenths_of_a_row_keeps_the_rest() {
    let mut b = Board::new();
    b.delta = 14_400_000;
    b.update(100_000, true, &[0, 1, 2, 3, 0, 1], &dirs());
    assert_eq!(b.delta, 6_400_000);
    assert_eq!(b.user_row, 1);
}

#[test]
fn one_row_comes_in_per_frame_at_most() {
    let mut b = Board::new();
    b.update(40_000_000, false, &[0, 1, 2, 3, 0, 1], &dirs());
    assert_eq!(b.delta, 8_000_000);
    assert_eq!(b.user_row, 1);
    assert_eq!(b.bottom, 11);
}

#[test]
fn unboosted_scroll_loses_no_time() {
    let mut b = Board::new();
    for _ in 0..3 {
        b.update(16_667, false, &[0, 1, 2, 3, 0, 1], &dirs());
    }
    assert_eq!(b.delta, 50_001);
}

#[test]
fn death_animation_is_gone_once_its_time_has_passed() {
    let mut b = Board::new();
    put(&mut b, 2, 3, Cell::DeathAnim(4, 7, 30_000, 0));
    // two steps of 20 ms run down the wait, five more the animation
    for _ in 0..6 {
        b.check_death_anims(20_000);
        assert!(matches!(b.get_cell(2, 3), Cell::DeathAnim(4, 7, _, _)));
    }
    b.check_death_anims(20_000);
    assert!(matches!(b.get_cell(2, 3), Cell::Empty));
    b.check_death_anims(20_000);
    assert!(matches!(b.get_cell(2, 3), Cell::Empty));
}

#[test]
fn whole_garbage_block_converts_wherever_it_lies() {
    let mut b = Board::new();
    for x in 0..3 {
        put(&mut b, x, 0, Cell::Single(2, None));
    }
    put(&mut b, 3, 0, Cell::Garbage(1000, None));
    put(&mut b, 5, 4, Cell::Garbage(1000, Some(20)));
    put(&mut b, 4, 4, Cell::Garbage(1002, None));
    b.check_matches(&dirs());
    assert!(matches!(b.get_cell(3, 0), Cell::Captcha(1000, 103, None, false)));
    // storage index 29
    assert!(matches!(b.get_cell(5, 4), Cell::Captcha(1000, 101, Some(20), false)));
    assert!(matches!(b.get_cell(4, 4), Cell::Garbage(1002, None)));
}

#[test]
fn gravity_leaves_dying_blocks_and_the_bottom_row_alone() {
    let mut b = Board::new();
    put(&mut b, 1, 2, Cell::QueuedDelete(3, 1, 0, 400_000, tetra_attack::chain::Chain::default()));
    put(&mut b, 2, 3, Cell::DeathAnim(5, 0, 0, 50_000));
    put(&mut b, 0, 0, Cell::Single(6, Some(300_000)));
    put(&mut b, 0, 1, Cell::Single(1, None));
    b.do_gravity(300_000);
    assert!(matches!(b.get_cell(1, 2), Cell::QueuedDelete(3, 1, 0, 400_000, _)));
    assert!(matches!(b.get_cell(2, 3), Cell::DeathAnim(5, 0, 0, 50_000)));
    assert!(matches!(b.get_cell(0, 0), Cell::Single(6, Some(300_000))));
    assert!(matches!(b.get_cell(0, 1), Cell::Single(1, None)));
}

#[test]
fn falling_blocks_can_pass_a_block_upwards() {
    let mut b = Board::new();
    put(&mut b, 0, 1, Cell::Garbage(1001, Some(999_999)));
    put(&mut b, 0, 2, Cell::Single(1, None));
    put(&mut b, 0, 3, Cell::Single(4, Some(0)));
    put(&mut b, 0, 4, Cell::Single(2, Some(999_999)));
    b.do_gravity(250_000);
    // the block of colour 1 on row 2 is swapped up twice in one pass
    assert!(matches!(b.get_cell(0, 0), Cell::Garbage(1001, Some(0))));
    assert!(matches!(b.get_cell(0, 1), Cell::Empty));
    assert!(matches!(b.get_cell(0, 2), Cell::Single(4, Some(0))));
    assert!(matches!(b.get_cell(0, 3), Cell::Single(2, Some(0))));
    assert!(matches!(b.get_cell(0, 4), Cell::Single(1, Some(0))));
}
