use puyo::board::{Group, PuyoColor};
use puyo::score::calculate_step_score;

fn make_group(color: PuyoColor, count: usize) -> Group {
    let cells: Vec<(usize, usize)> = (0..count).map(|i| (0, i)).collect();
    Group { color, cells }
}

#[test]
fn test_single_group_4_chain1() {
    let groups = vec![make_group(PuyoColor::Red, 4)];
    let score = calculate_step_score(1, &groups);
    assert_eq!(score, 40);
}

#[test]
fn test_single_group_5_chain1() {
    let groups = vec![make_group(PuyoColor::Red, 5)];
    let score = calculate_step_score(1, &groups);
    assert_eq!(score, 100);
}

#[test]
fn test_chain2_score() {
    let groups = vec![make_group(PuyoColor::Red, 4)];
    let score = calculate_step_score(2, &groups);
    assert_eq!(score, 320);
}

#[test]
fn test_two_colors_bonus() {
    let groups = vec![make_group(PuyoColor::Red, 4), make_group(PuyoColor::Blue, 4)];
    let score = calculate_step_score(1, &groups);
    assert_eq!(score, 240);
}

#[test]
fn test_empty_groups() {
    let score = calculate_step_score(1, &[]);
    assert_eq!(score, 0);
}
