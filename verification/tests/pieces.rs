use tetra_attack::cell::{Cell, GARBAGE_SPRITE};
use tetra_attack::chain::{Chain, CHAIN_WINDOW};
use tetra_attack::enemy::{Enemy, COOLDOWN};
use tetra_attack::input::{int_to_bool, Input};
use tetra_attack::time::{tick_down, tick_up};

#[test]
fn cell_values_by_kind() {
    assert_eq!(Cell::new().get_val(), 0);
    assert_eq!(Cell::Single(4, None).get_val(), 4);
    assert_eq!(Cell::QueuedDelete(3, 1, 0, 5, Chain::default()).get_val(), 3);
    assert_eq!(Cell::DeathAnim(2, 0, 0, 0).get_val(), 2);
    assert_eq!(Cell::Garbage(1000, None).get_val(), GARBAGE_SPRITE);
    assert_eq!(Cell::Captcha(1001, 102, None, false).get_val(), 1001);
}

#[test]
fn cell_fall_offsets_by_kind() {
    assert_eq!(Cell::Empty.get_fall_offset(), 0);
    assert_eq!(Cell::Single(1, None).get_fall_offset(), 0);
    assert_eq!(Cell::Single(1, Some(250_000)).get_fall_offset(), 250_000);
    assert_eq!(Cell::QueuedDelete(1, 1, 7, 5, Chain::default()).get_fall_offset(), 7);
    assert_eq!(Cell::DeathAnim(1, 9, 0, 0).get_fall_offset(), 9);
    assert_eq!(Cell::Garbage(1000, Some(3)).get_fall_offset(), 3);
    assert_eq!(Cell::Captcha(1000, 100, Some(3), false).get_fall_offset(), 0);
}

#[test]
fn only_resting_blocks_of_one_colour_match() {
    assert!(Cell::Single(2, None) == Cell::Single(2, None));
    assert!(Cell::Single(2, None) != Cell::Single(3, None));
    assert!(Cell::Single(2, Some(0)) != Cell::Single(2, None));
    assert!(Cell::Single(2, None) != Cell::Single(2, Some(10)));
    assert!(Cell::Empty != Cell::Empty);
    assert!(Cell::Garbage(1000, None) != Cell::Garbage(1000, None));
    // matching is symmetric
    let a = Cell::Single(5, None);
    let b = Cell::Single(5, Some(1));
    assert_eq!(a == b, b == a);
}

#[test]
fn chain_starts_at_two_and_counts_links() {
    let mut c = Chain::default();
    assert_eq!(c.get_value(), None);
    c.inc();
    assert_eq!(c.get_value(), Some(2));
    c.inc();
    assert_eq!(c.get_value(), Some(3));
    c.clear();
    assert_eq!(c.get_value(), None);
}

#[test]
fn chain_closes_when_its_window_runs_out() {
    let mut c = Chain::default();
    c.inc();
    c.inc();
    assert_eq!(c.update(1_000_000), None);
    assert_eq!(c.get_value(), Some(3));
    assert_eq!(c.update((CHAIN_WINDOW - 1_000_000) as u32), Some(3));
    assert_eq!(c.get_value(), None);
    // a closed chain reports its multiplier once
    assert_eq!(c.update(1), None);
    assert_eq!(c.update(10_000_000), None);
}

#[test]
fn cleared_chain_reports_nothing() {
    let mut c = Chain::default();
    c.inc();
    c.clear();
    assert_eq!(c.update(10_000_000), None);
}

#[test]
fn enemy_attacks_when_countdown_passes_zero() {
    let mut e = Enemy::new();
    assert_eq!(e.countdown, COOLDOWN);
    assert!(!e.update(29_000_000));
    assert_eq!(e.countdown, 1_000_000);
    assert!(!e.update(1_000_000));
    assert_eq!(e.countdown, 0);
    assert!(e.update(1));
    assert_eq!(e.countdown, COOLDOWN);
}

#[test]
fn chain_delays_enemy_two_seconds_per_step() {
    let mut e = Enemy::new();
    e.attack(3);
    assert_eq!(e.countdown, COOLDOWN + 6_000_000);
    e.countdown = i64::MAX - 1;
    e.attack(1);
    assert_eq!(e.countdown, i64::MAX);
}

#[test]
fn time_steps_hold_at_the_limits() {
    assert_eq!(tick_down(10, 3), 7);
    assert_eq!(tick_down(i64::MIN + 1, 5), i64::MIN);
    assert_eq!(tick_up(10, 3), 13);
    assert_eq!(tick_up(i64::MAX - 1, 5), i64::MAX);
}

#[test]
fn c_flags_and_default_input() {
    assert!(!int_to_bool(0));
    assert!(int_to_bool(1));
    assert!(int_to_bool(-7));
    let i = Input::default();
    assert!(!i.any && !i.left && !i.right && !i.up && !i.down && !i.action && !i.alt);
}
