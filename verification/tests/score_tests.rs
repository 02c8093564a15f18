use tetrust::piece::GridPos;
use tetrust::score::{get_score, line_score, next_fall_interval, placement_score, update_level};

#[test]
fn line_base_awards() {
    assert_eq!(get_score(0), 0);
    assert_eq!(get_score(1), 100);
    assert_eq!(get_score(2), 300);
    assert_eq!(get_score(3), 500);
    assert_eq!(get_score(4), 800);
    assert_eq!(get_score(5), 0);
}

#[test]
fn line_score_scales_with_level() {
    assert_eq!(line_score(1, 1), 100);
    assert_eq!(line_score(2, 1), 300);
    assert_eq!(line_score(3, 1), 500);
    assert_eq!(line_score(4, 1), 800);
    assert_eq!(line_score(1, 7), 700);
    assert_eq!(line_score(2, 7), 2100);
    assert_eq!(line_score(3, 5), 2500);
    assert_eq!(line_score(4, 10), 8000);
    assert_eq!(line_score(0, 9), 0);
}

fn cells_at_rows(rows: [i32; 4]) -> Vec<GridPos> {
    rows.iter().enumerate().map(|(i, &r)| GridPos { row: r, col: i as i32 }).collect()
}

#[test]
fn placement_award_rewards_depth() {
    assert_eq!(placement_score(&cells_at_rows([19, 19, 18, 18])), 17);
    assert_eq!(placement_score(&cells_at_rows([19, 19, 19, 19])), 18);
    assert_eq!(placement_score(&cells_at_rows([1, 1, 0, 1])), 0);
    assert_eq!(placement_score(&cells_at_rows([1, 1, 1, 2])), 0);
    assert_eq!(placement_score(&cells_at_rows([5, 6, 7, 8])), 4);
    // Rows above the field clamp to the top.
    assert_eq!(placement_score(&cells_at_rows([-2, -1, 0, 1])), 0);
}

#[test]
fn level_advances_every_ten_lines_with_carry() {
    assert_eq!(update_level(1, 0, 4, false), (1, 4, false));
    assert_eq!(update_level(1, 8, 3, false), (2, 1, true));
    assert_eq!(update_level(1, 9, 1, false), (2, 0, true));
    assert_eq!(update_level(3, 6, 4, false), (4, 0, true));
    assert_eq!(update_level(2, 6, 2, false), (2, 8, false));
}

#[test]
fn manual_trigger_forces_a_level_up() {
    assert_eq!(update_level(5, 2, 0, true), (6, 2, true));
    assert_eq!(update_level(1, 0, 0, false), (1, 0, false));
}

#[test]
fn fall_interval_curve() {
    // Every level through ten shortens the interval by the fixed decrement.
    assert_eq!(next_fall_interval(500, 2), 440);
    assert_eq!(next_fall_interval(440, 3), 380);
    assert_eq!(next_fall_interval(500, 10), 440);
    // Past ten, only the milestone levels shorten it.
    assert_eq!(next_fall_interval(200, 11), 200);
    assert_eq!(next_fall_interval(200, 12), 200);
    assert_eq!(next_fall_interval(200, 13), 140);
    assert_eq!(next_fall_interval(140, 16), 80);
    assert_eq!(next_fall_interval(80, 19), 20);
    assert_eq!(next_fall_interval(100, 20), 100);
    assert_eq!(next_fall_interval(100, 29), 40);
    assert_eq!(next_fall_interval(100, 30), 100);
    // The interval never wraps below zero.
    assert_eq!(next_fall_interval(20, 5), 0);
    assert_eq!(next_fall_interval(0, 6), 0);
}
