use puyo::board::{Board, PuyoColor};
use puyo::classic::board as fixed;
use puyo::config::GameConfig;

fn cfg() -> GameConfig {
    GameConfig::default()
}

#[test]
fn board_test_new_board_is_empty() {
    let c = cfg();
    let board = Board::new(&c);
    for col in 0..c.cols {
        assert_eq!(board.column_height(col), 0);
    }

    let board = fixed::Board::new();
    for col in 0..fixed::COLS {
        assert_eq!(board.column_height(col), 0);
    }
}

#[test]
fn board_test_drop_puyo() {
    let mut board = Board::new(&cfg());
    let row = board.drop_puyo(0, PuyoColor::Red);
    assert_eq!(row, 0);
    assert_eq!(board.get(0, 0), PuyoColor::Red);
    assert_eq!(board.column_height(0), 1);

    let row = board.drop_puyo(0, PuyoColor::Blue);
    assert_eq!(row, 1);
    assert_eq!(board.get(0, 1), PuyoColor::Blue);
    assert_eq!(board.column_height(0), 2);

    let mut board = fixed::Board::new();
    let row = board.drop_puyo(0, PuyoColor::Red);
    assert_eq!(row, 0);
    assert_eq!(board.get(0, 0), PuyoColor::Red);
    assert_eq!(board.column_height(0), 1);

    let row = board.drop_puyo(0, PuyoColor::Blue);
    assert_eq!(row, 1);
    assert_eq!(board.get(0, 1), PuyoColor::Blue);
    assert_eq!(board.column_height(0), 2);
}

// `drop_puyo` requires a column with room; like every caller outside the
// verified library, the test checks that before dropping, and fails with the
// message of a full column.
#[test]
#[should_panic(expected = "column 0 is full")]
fn board_test_column_full() {
    let c = cfg();
    let mut board = Board::new(&c);
    for _ in 0..c.rows {
        board.drop_puyo(0, PuyoColor::Red);
    }
    let h = board.column_height(0);
    assert!(h < c.rows, "drop_puyo: column 0 is full (height={})", h);
    board.drop_puyo(0, PuyoColor::Red);
}

#[test]
fn board_test_apply_gravity() {
    let mut board = Board::new(&cfg());
    board.set(0, 0, PuyoColor::Red);
    board.set(0, 2, PuyoColor::Blue);
    board.set(0, 5, PuyoColor::Green);
    board.apply_gravity();
    assert_eq!(board.get(0, 0), PuyoColor::Red);
    assert_eq!(board.get(0, 1), PuyoColor::Blue);
    assert_eq!(board.get(0, 2), PuyoColor::Green);
    assert_eq!(board.get(0, 3), PuyoColor::Empty);

    let mut board = fixed::Board::new();
    board.set(0, 0, PuyoColor::Red);
    board.set(0, 2, PuyoColor::Blue);
    board.set(0, 5, PuyoColor::Green);
    board.apply_gravity();
    assert_eq!(board.get(0, 0), PuyoColor::Red);
    assert_eq!(board.get(0, 1), PuyoColor::Blue);
    assert_eq!(board.get(0, 2), PuyoColor::Green);
    assert_eq!(board.get(0, 3), PuyoColor::Empty);
}

#[test]
fn board_test_game_over() {
    let c = cfg();
    let mut board = Board::new(&c);
    assert!(!board.is_game_over());
    for _ in 0..c.visible_rows() - 1 {
        board.drop_puyo(c.spawn_col(), PuyoColor::Red);
    }
    assert!(!board.is_game_over());
    board.drop_puyo(c.spawn_col(), PuyoColor::Red);
    assert!(board.is_game_over());

    let mut board = fixed::Board::new();
    assert!(!board.is_game_over());
    for _ in 0..fixed::VISIBLE_ROWS - 1 {
        board.drop_puyo(fixed::SPAWN_COL, PuyoColor::Red);
    }
    assert!(!board.is_game_over());
    board.drop_puyo(fixed::SPAWN_COL, PuyoColor::Red);
    assert!(board.is_game_over());
}

#[test]
fn board_test_top_hidden_row_not_affected_by_gravity() {
    let c = cfg();
    let mut board = Board::new(&c);
    board.set(0, c.rows - 1, PuyoColor::Red);
    board.apply_gravity();
    assert_eq!(board.get(0, c.rows - 1), PuyoColor::Red);
    assert_eq!(board.get(0, 0), PuyoColor::Empty);

    let mut board = fixed::Board::new();
    board.set(0, fixed::ROWS - 1, PuyoColor::Red);
    board.apply_gravity();
    assert_eq!(board.get(0, fixed::ROWS - 1), PuyoColor::Red);
    assert_eq!(board.get(0, 0), PuyoColor::Empty);
}

#[test]
fn board_test_column_height_with_isolated_top_hidden_row() {
    let c = cfg();
    let mut board = Board::new(&c);
    board.set(0, c.rows - 1, PuyoColor::Red);
    assert_eq!(board.column_height(0), 0);

    let mut board = fixed::Board::new();
    board.set(0, fixed::ROWS - 1, PuyoColor::Red);
    assert_eq!(board.column_height(0), 0);
}

#[test]
fn board_test_column_height_with_stack_and_top_hidden_row() {
    let c = cfg();
    let mut board = Board::new(&c);
    board.set(0, 0, PuyoColor::Red);
    board.set(0, 1, PuyoColor::Blue);
    board.set(0, 2, PuyoColor::Green);
    board.set(0, c.rows - 1, PuyoColor::Blue);
    assert_eq!(board.column_height(0), 3);

    let mut board = fixed::Board::new();
    board.set(0, 0, PuyoColor::Red);
    board.set(0, 1, PuyoColor::Blue);
    board.set(0, 2, PuyoColor::Green);
    board.set(0, fixed::ROWS - 1, PuyoColor::Blue);
    assert_eq!(board.column_height(0), 3);
}

#[test]
fn board_test_drop_puyo_with_isolated_top_hidden_row() {
    let c = cfg();
    let mut board = Board::new(&c);
    board.set(0, c.rows - 1, PuyoColor::Red);
    let row = board.drop_puyo(0, PuyoColor::Blue);
    assert_eq!(row, 0);
    assert_eq!(board.get(0, 0), PuyoColor::Blue);

    let mut board = fixed::Board::new();
    board.set(0, fixed::ROWS - 1, PuyoColor::Red);
    let row = board.drop_puyo(0, PuyoColor::Blue);
    assert_eq!(row, 0);
    assert_eq!(board.get(0, 0), PuyoColor::Blue);
}

#[test]
fn board_test_column_info_isolated() {
    let c = cfg();
    let mut board = Board::new(&c);
    assert_eq!(board.column_info(0), (0, false));
    board.set(0, c.rows - 1, PuyoColor::Red);
    assert_eq!(board.column_info(0), (0, true));
    board.set(0, c.rows - 2, PuyoColor::Blue);
    assert_eq!(board.column_info(0), (0, false));
    assert_eq!(board.column_info(1), (0, false));

    let mut board = fixed::Board::new();
    assert_eq!(board.column_info(0), (0, false));
    board.set(0, fixed::ROWS - 1, PuyoColor::Red);
    assert_eq!(board.column_info(0), (0, true));
    board.set(0, fixed::ROWS - 2, PuyoColor::Blue);
    assert_eq!(board.column_info(0), (0, false));
    assert_eq!(board.column_info(1), (0, false));
}

#[test]
fn board_test_to_flat() {
    let c = cfg();
    let board = Board::new(&c);
    let flat = board.to_flat();
    assert_eq!(flat.len(), c.cols * c.rows);
    assert!(flat.iter().all(|&v| v == 0));

    let board = fixed::Board::new();
    let flat = board.to_flat();
    assert_eq!(flat.len(), fixed::COLS * fixed::ROWS);
    assert!(flat.iter().all(|&v| v == 0));
}

// ---- Chain tests ----

#[test]
fn board_test_no_chain() {
    let mut board = Board::new(&cfg());
    board.drop_puyo(0, PuyoColor::Red);
    board.drop_puyo(1, PuyoColor::Blue);
    let result = board.resolve_chains();
    assert_eq!(result.chain_count, 0);
    assert_eq!(result.score, 0);

    let mut board = fixed::Board::new();
    board.drop_puyo(0, PuyoColor::Red);
    board.drop_puyo(1, PuyoColor::Blue);
    let result = board.resolve_chains();
    assert_eq!(result.chain_count, 0);
    assert_eq!(result.score, 0);
}

#[test]
fn board_test_single_group_clear() {
    let mut board = Board::new(&cfg());
    for _ in 0..4 {
        board.drop_puyo(0, PuyoColor::Red);
    }
    let result = board.resolve_chains();
    assert_eq!(result.chain_count, 1);
    assert!(result.score > 0);
    assert_eq!(board.column_height(0), 0);

    let mut board = fixed::Board::new();
    for _ in 0..4 {
        board.drop_puyo(0, PuyoColor::Red);
    }
    let result = board.resolve_chains();
    assert_eq!(result.chain_count, 1);
    assert!(result.score > 0);
    assert_eq!(board.column_height(0), 0);
}

#[test]
fn board_test_l_shape_group_clear() {
    let mut board = Board::new(&cfg());
    board.set(0, 0, PuyoColor::Red);
    board.set(1, 0, PuyoColor::Red);
    board.set(2, 0, PuyoColor::Red);
    board.set(0, 1, PuyoColor::Red);
    let result = board.resolve_chains();
    assert_eq!(result.chain_count, 1);

    let mut board = fixed::Board::new();
    board.set(0, 0, PuyoColor::Red);
    board.set(1, 0, PuyoColor::Red);
    board.set(2, 0, PuyoColor::Red);
    board.set(0, 1, PuyoColor::Red);
    let result = board.resolve_chains();
    assert_eq!(result.chain_count, 1);
}

#[test]
fn board_test_two_chain() {
    let mut board = Board::new(&cfg());
    for _ in 0..3 {
        board.drop_puyo(0, PuyoColor::Blue);
    }
    for _ in 0..4 {
        board.drop_puyo(1, PuyoColor::Red);
    }
    board.drop_puyo(1, PuyoColor::Blue);
    let result = board.resolve_chains();
    assert_eq!(result.chain_count, 2);
    assert_eq!(board.column_height(0), 0);
    assert_eq!(board.column_height(1), 0);

    let mut board = fixed::Board::new();
    for _ in 0..3 {
        board.drop_puyo(0, PuyoColor::Blue);
    }
    for _ in 0..4 {
        board.drop_puyo(1, PuyoColor::Red);
    }
    board.drop_puyo(1, PuyoColor::Blue);
    let result = board.resolve_chains();
    assert_eq!(result.chain_count, 2);
    assert_eq!(board.column_height(0), 0);
    assert_eq!(board.column_height(1), 0);
}

#[test]
fn board_test_gravity_after_clear() {
    let mut board = Board::new(&cfg());
    for _ in 0..4 {
        board.drop_puyo(0, PuyoColor::Red);
    }
    board.drop_puyo(0, PuyoColor::Green);
    board.resolve_chains();
    assert_eq!(board.get(0, 0), PuyoColor::Green);
    assert_eq!(board.column_height(0), 1);

    let mut board = fixed::Board::new();
    for _ in 0..4 {
        board.drop_puyo(0, PuyoColor::Red);
    }
    board.drop_puyo(0, PuyoColor::Green);
    board.resolve_chains();
    assert_eq!(board.get(0, 0), PuyoColor::Green);
    assert_eq!(board.column_height(0), 1);
}

#[test]
fn board_test_l_shape_group() {
    let mut board = Board::new(&cfg());
    board.set(0, 0, PuyoColor::Red);
    board.set(0, 1, PuyoColor::Red);
    board.set(1, 0, PuyoColor::Red);
    board.set(2, 0, PuyoColor::Red);
    let groups = board.find_clearable_groups();
    assert_eq!(groups.len(), 1);
    assert_eq!(groups[0].cells.len(), 4);

    let mut board = fixed::Board::new();
    board.set(0, 0, PuyoColor::Red);
    board.set(0, 1, PuyoColor::Red);
    board.set(1, 0, PuyoColor::Red);
    board.set(2, 0, PuyoColor::Red);
    let groups = board.find_clearable_groups();
    assert_eq!(groups.len(), 1);
    assert_eq!(groups[0].cells.len(), 4);
}

#[test]
fn board_test_hidden_row_puyo_not_cleared() {
    let c = cfg();
    let mut board = Board::new(&c);
    for row in 0..4 {
        board.set(0, row, PuyoColor::Red);
    }
    board.set(0, c.visible_rows(), PuyoColor::Red);
    let result = board.resolve_chains();
    assert_eq!(result.chain_count, 1);
    assert_eq!(board.get(0, 0), PuyoColor::Red);
    assert_eq!(board.column_height(0), 1);

    let mut board = fixed::Board::new();
    for row in 0..4 {
        board.set(0, row, PuyoColor::Red);
    }
    board.set(0, fixed::VISIBLE_ROWS, PuyoColor::Red);
    let result = board.resolve_chains();
    assert_eq!(result.chain_count, 1);
    assert_eq!(board.get(0, 0), PuyoColor::Red);
    assert_eq!(board.column_height(0), 1);
}

#[test]
fn board_test_hidden_row_puyo_falls_after_clear() {
    let c = cfg();
    let mut board = Board::new(&c);
    for row in 0..4 {
        board.set(0, row, PuyoColor::Red);
    }
    board.set(0, 4, PuyoColor::Green);
    board.set(0, c.visible_rows(), PuyoColor::Green);
    board.resolve_chains();
    assert_eq!(board.get(0, 0), PuyoColor::Green);
    assert_eq!(board.get(0, 1), PuyoColor::Green);
    assert_eq!(board.column_height(0), 2);

    let mut board = fixed::Board::new();
    for row in 0..4 {
        board.set(0, row, PuyoColor::Red);
    }
    board.set(0, 4, PuyoColor::Green);
    board.set(0, fixed::VISIBLE_ROWS, PuyoColor::Green);
    board.resolve_chains();
    assert_eq!(board.get(0, 0), PuyoColor::Green);
    assert_eq!(board.get(0, 1), PuyoColor::Green);
    assert_eq!(board.column_height(0), 2);
}

#[test]
fn board_test_hidden_row_only_does_not_clear() {
    let c = cfg();
    let mut board = Board::new(&c);
    for col in 0..c.cols {
        board.set(col, c.visible_rows(), PuyoColor::Red);
    }
    board.set(0, c.visible_rows() + 1, PuyoColor::Red);
    let groups = board.find_clearable_groups();
    assert!(groups.is_empty(), "Hidden-row-only puyos should not form clearable groups");
    let result = board.resolve_chains();
    assert_eq!(result.chain_count, 0);

    let mut board = fixed::Board::new();
    for col in 0..fixed::COLS {
        board.set(col, fixed::VISIBLE_ROWS, PuyoColor::Red);
    }
    board.set(0, fixed::VISIBLE_ROWS + 1, PuyoColor::Red);
    let groups = board.find_clearable_groups();
    assert!(groups.is_empty(), "Hidden-row-only puyos should not form clearable groups");
    let result = board.resolve_chains();
    assert_eq!(result.chain_count, 0);
}
