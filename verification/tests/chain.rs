use puyo::classic::board::{Board, VISIBLE_ROWS};
use puyo::classic::chain::{find_groups, resolve_chains, resolve_one_step, PuyoColor};

#[test]
fn chain_test_no_chain() {
    let mut board = Board::new();
    board.drop_puyo(0, PuyoColor::Red);
    board.drop_puyo(1, PuyoColor::Blue);
    let result = resolve_chains(&mut board);
    assert_eq!(result.chain_count, 0);
    assert_eq!(result.score, 0);
}

#[test]
fn chain_test_single_group_clear() {
    let mut board = Board::new();
    for _ in 0..4 {
        board.drop_puyo(0, PuyoColor::Red);
    }
    let result = resolve_chains(&mut board);
    assert_eq!(result.chain_count, 1);
    assert!(result.score > 0);
    assert_eq!(board.column_height(0), 0);
}

#[test]
fn chain_test_two_chain() {
    let mut board = Board::new();
    for _ in 0..3 {
        board.drop_puyo(0, PuyoColor::Blue);
    }
    for _ in 0..4 {
        board.drop_puyo(1, PuyoColor::Red);
    }
    board.drop_puyo(1, PuyoColor::Blue);
    let result = resolve_chains(&mut board);
    assert_eq!(result.chain_count, 2);
    assert_eq!(board.column_height(0), 0);
    assert_eq!(board.column_height(1), 0);
}

#[test]
fn chain_test_gravity_after_clear() {
    let mut board = Board::new();
    for _ in 0..4 {
        board.drop_puyo(0, PuyoColor::Red);
    }
    board.drop_puyo(0, PuyoColor::Green);
    resolve_chains(&mut board);
    assert_eq!(board.get(0, 0), PuyoColor::Green);
    assert_eq!(board.column_height(0), 1);
}

#[test]
fn chain_test_l_shape_group() {
    let mut board = Board::new();
    board.set(0, 0, PuyoColor::Red);
    board.set(0, 1, PuyoColor::Red);
    board.set(1, 0, PuyoColor::Red);
    board.set(2, 0, PuyoColor::Red);
    let groups = find_groups(&board);
    assert_eq!(groups.len(), 1);
    assert_eq!(groups[0].cells.len(), 4);
}

#[test]
fn chain_test_hidden_row_puyo_not_cleared() {
    let mut board = Board::new();
    for row in 0..4 {
        board.set(0, row, PuyoColor::Red);
    }
    board.set(0, VISIBLE_ROWS, PuyoColor::Red);
    let result = resolve_chains(&mut board);
    assert_eq!(result.chain_count, 1);
    assert_eq!(board.get(0, 0), PuyoColor::Red);
    assert_eq!(board.column_height(0), 1);
}

#[test]
fn chain_test_hidden_row_puyo_falls_after_clear() {
    let mut board = Board::new();
    for row in 0..4 {
        board.set(0, row, PuyoColor::Red);
    }
    board.set(0, 4, PuyoColor::Green);
    board.set(0, VISIBLE_ROWS, PuyoColor::Green);
    resolve_chains(&mut board);
    assert_eq!(board.get(0, 0), PuyoColor::Green);
    assert_eq!(board.get(0, 1), PuyoColor::Green);
    assert_eq!(board.column_height(0), 2);
}

#[test]
fn test_resolve_one_step_two_chain() {
    let mut board = Board::new();
    for _ in 0..3 {
        board.drop_puyo(0, PuyoColor::Blue);
    }
    for _ in 0..4 {
        board.drop_puyo(1, PuyoColor::Red);
    }
    board.drop_puyo(1, PuyoColor::Blue);

    let step1 = resolve_one_step(&mut board, 1);
    assert!(step1.is_some());
    let step1 = step1.unwrap();
    assert_eq!(step1.chain_num, 1);

    let step2 = resolve_one_step(&mut board, 2);
    assert!(step2.is_some());
    let step2 = step2.unwrap();
    assert_eq!(step2.chain_num, 2);

    let step3 = resolve_one_step(&mut board, 3);
    assert!(step3.is_none());

    assert_eq!(board.column_height(0), 0);
    assert_eq!(board.column_height(1), 0);
}

#[test]
fn test_resolve_one_step_no_chain() {
    let mut board = Board::new();
    board.drop_puyo(0, PuyoColor::Red);
    board.drop_puyo(1, PuyoColor::Blue);
    let result = resolve_one_step(&mut board, 1);
    assert!(result.is_none());
}
