use puyo::board::{Board, PuyoColor};
use puyo::classic::board as fixed;
use puyo::classic::piece::Placement as FixedPlacement;
use puyo::classic::placement as fixed_placement;
use puyo::config::GameConfig;
use puyo::piece::{Orientation, Piece, Placement};
use puyo::placement::{
    compute_valid_mask, enumerate_placements, index_to_placement, placement_to_index,
};

fn cfg() -> GameConfig {
    GameConfig::default()
}

fn has(ps: &[Placement], col: usize, o: Orientation) -> bool {
    ps.iter().any(|p| p.col == col && p.orientation == o)
}

fn fixed_has(ps: &[FixedPlacement], col: usize, o: Orientation) -> bool {
    ps.iter().any(|p| p.col == col && p.orientation == o)
}

#[test]
fn placement_test_empty_board_placements() {
    let c = cfg();
    let cols = c.cols;
    let board = Board::default();
    let piece = Piece::new(PuyoColor::Red, PuyoColor::Blue);
    let placements = enumerate_placements(&board, &piece);
    let expected = cols * 2 + (cols - 1) * 2;
    assert_eq!(placements.len(), expected);

    let board = fixed::Board::new();
    let placements = fixed_placement::enumerate_placements(&board, &piece);
    let expected = fixed::COLS * 2 + (fixed::COLS - 1) * 2;
    assert_eq!(placements.len(), expected);
}

#[test]
fn placement_test_same_color_dedup() {
    let c = cfg();
    let cols = c.cols;
    let board = Board::default();
    let piece = Piece::new(PuyoColor::Red, PuyoColor::Red);
    let placements = enumerate_placements(&board, &piece);
    let expected = cols + (cols - 1);
    assert_eq!(placements.len(), expected);

    let board = fixed::Board::new();
    let placements = fixed_placement::enumerate_placements(&board, &piece);
    let expected = fixed::COLS + (fixed::COLS - 1);
    assert_eq!(placements.len(), expected);
}

#[test]
fn placement_test_full_column_reduces_placements() {
    let c = cfg();
    let cols = c.cols;
    let rows = c.rows;
    let mut board = Board::default();
    for _ in 0..rows {
        board.drop_puyo(0, PuyoColor::Red);
    }
    let piece = Piece::new(PuyoColor::Red, PuyoColor::Blue);
    let placements = enumerate_placements(&board, &piece);
    let remaining = cols - 1;
    let expected = remaining * 2 + (remaining - 1).max(0) + (remaining - 1).max(0);
    assert_eq!(placements.len(), expected);

    let mut board = fixed::Board::new();
    for _ in 0..fixed::ROWS {
        board.drop_puyo(0, PuyoColor::Red);
    }
    let placements = fixed_placement::enumerate_placements(&board, &piece);
    let remaining = fixed::COLS - 1;
    let expected = remaining * 2 + (remaining - 1).max(0) + (remaining - 1).max(0);
    assert_eq!(placements.len(), expected);
}

#[test]
fn placement_test_south_blocked_at_visible_height() {
    let c = cfg();
    let cols = c.cols;
    let visible_rows = c.visible_rows();
    let mut board = Board::default();
    for _ in 0..visible_rows {
        board.drop_puyo(cols - 1, PuyoColor::Red);
    }
    let piece = Piece::new(PuyoColor::Red, PuyoColor::Blue);
    let placements = enumerate_placements(&board, &piece);
    assert!(!has(&placements, cols - 1, Orientation::South));
    assert!(has(&placements, cols - 1, Orientation::North));

    let mut board = fixed::Board::new();
    for _ in 0..fixed::VISIBLE_ROWS {
        board.drop_puyo(fixed::COLS - 1, PuyoColor::Red);
    }
    let placements = fixed_placement::enumerate_placements(&board, &piece);
    assert!(!fixed_has(&placements, fixed::COLS - 1, Orientation::South));
    assert!(fixed_has(&placements, fixed::COLS - 1, Orientation::North));
}

#[test]
fn placement_test_south_allowed_at_height_below_visible() {
    let c = cfg();
    let cols = c.cols;
    let visible_rows = c.visible_rows();
    let mut board = Board::default();
    for _ in 0..visible_rows - 1 {
        board.drop_puyo(cols - 1, PuyoColor::Red);
    }
    let piece = Piece::new(PuyoColor::Red, PuyoColor::Blue);
    let placements = enumerate_placements(&board, &piece);
    assert!(has(&placements, cols - 1, Orientation::South));

    let mut board = fixed::Board::new();
    for _ in 0..fixed::VISIBLE_ROWS - 1 {
        board.drop_puyo(fixed::COLS - 1, PuyoColor::Red);
    }
    let placements = fixed_placement::enumerate_placements(&board, &piece);
    assert!(fixed_has(&placements, fixed::COLS - 1, Orientation::South));
}

#[test]
fn placement_test_high_column_blocks_traversal_left() {
    let c = cfg();
    let cols = c.cols;
    let rows = c.rows;
    let spawn_col = c.spawn_col();
    let mut board = Board::default();
    for _ in 0..rows - 1 {
        board.drop_puyo(0, PuyoColor::Red);
    }
    let piece = Piece::new(PuyoColor::Red, PuyoColor::Blue);
    let placements = enumerate_placements(&board, &piece);
    assert!(!placements.iter().any(
        |p| p.col == 0 && matches!(p.orientation, Orientation::North | Orientation::South)
    ));
    assert!(has(&placements, spawn_col, Orientation::North));
    assert!(has(&placements, cols - 1, Orientation::North));

    let mut board = fixed::Board::new();
    for _ in 0..fixed::ROWS - 1 {
        board.drop_puyo(0, PuyoColor::Red);
    }
    let placements = fixed_placement::enumerate_placements(&board, &piece);
    assert!(!placements.iter().any(
        |p| p.col == 0 && matches!(p.orientation, Orientation::North | Orientation::South)
    ));
    assert!(fixed_has(&placements, fixed::SPAWN_COL, Orientation::North));
    assert!(fixed_has(&placements, fixed::COLS - 1, Orientation::North));
}

#[test]
fn placement_test_high_column_blocks_traversal_right() {
    let c = cfg();
    let cols = c.cols;
    let rows = c.rows;
    let spawn_col = c.spawn_col();
    let mut board = Board::default();
    for _ in 0..rows - 1 {
        board.drop_puyo(cols - 1, PuyoColor::Red);
    }
    let piece = Piece::new(PuyoColor::Red, PuyoColor::Blue);
    let placements = enumerate_placements(&board, &piece);
    assert!(!placements.iter().any(
        |p| p.col == cols - 1 && matches!(p.orientation, Orientation::North | Orientation::South)
    ));
    assert!(has(&placements, 0, Orientation::North));
    assert!(has(&placements, spawn_col, Orientation::North));

    let mut board = fixed::Board::new();
    for _ in 0..fixed::ROWS - 1 {
        board.drop_puyo(fixed::COLS - 1, PuyoColor::Red);
    }
    let placements = fixed_placement::enumerate_placements(&board, &piece);
    assert!(!placements.iter().any(|p| p.col == fixed::COLS - 1
        && matches!(p.orientation, Orientation::North | Orientation::South)));
    assert!(fixed_has(&placements, 0, Orientation::North));
    assert!(fixed_has(&placements, fixed::SPAWN_COL, Orientation::North));
}

#[test]
fn placement_test_east_west_satellite_reachability() {
    let c = cfg();
    let cols = c.cols;
    let rows = c.rows;
    let spawn_col = c.spawn_col();
    let mut board = Board::default();
    for _ in 0..rows - 1 {
        board.drop_puyo(cols - 1, PuyoColor::Red);
    }
    let piece = Piece::new(PuyoColor::Red, PuyoColor::Blue);
    let placements = enumerate_placements(&board, &piece);
    assert!(!has(&placements, spawn_col, Orientation::East));
    assert!(has(&placements, spawn_col, Orientation::West));
    assert!(has(&placements, 0, Orientation::East));

    let mut board = fixed::Board::new();
    for _ in 0..fixed::ROWS - 1 {
        board.drop_puyo(fixed::COLS - 1, PuyoColor::Red);
    }
    let placements = fixed_placement::enumerate_placements(&board, &piece);
    assert!(!fixed_has(&placements, fixed::SPAWN_COL, Orientation::East));
    assert!(fixed_has(&placements, fixed::SPAWN_COL, Orientation::West));
    assert!(fixed_has(&placements, 0, Orientation::East));
}

#[test]
fn placement_test_north_blocked_by_isolated_top_row() {
    let c = cfg();
    let cols = c.cols;
    let rows = c.rows;
    let mut board = Board::default();
    for _ in 0..rows - 2 {
        board.drop_puyo(cols - 1, PuyoColor::Red);
    }
    board.set(cols - 1, rows - 1, PuyoColor::Green);
    let piece = Piece::new(PuyoColor::Red, PuyoColor::Blue);
    let placements = enumerate_placements(&board, &piece);
    assert!(!has(&placements, cols - 1, Orientation::North));

    let mut board = fixed::Board::new();
    for _ in 0..fixed::ROWS - 2 {
        board.drop_puyo(fixed::COLS - 1, PuyoColor::Red);
    }
    board.set(fixed::COLS - 1, fixed::ROWS - 1, PuyoColor::Green);
    let placements = fixed_placement::enumerate_placements(&board, &piece);
    assert!(!fixed_has(&placements, fixed::COLS - 1, Orientation::North));
}

#[test]
fn placement_test_north_allowed_without_isolated_top_row() {
    let c = cfg();
    let cols = c.cols;
    let rows = c.rows;
    let visible_rows = c.visible_rows();
    let mut board = Board::default();
    for _ in 0..visible_rows / 2 {
        board.drop_puyo(cols - 1, PuyoColor::Red);
    }
    board.set(cols - 1, rows - 1, PuyoColor::Green);
    let piece = Piece::new(PuyoColor::Red, PuyoColor::Blue);
    let placements = enumerate_placements(&board, &piece);
    assert!(has(&placements, cols - 1, Orientation::North));

    let mut board = fixed::Board::new();
    for _ in 0..fixed::VISIBLE_ROWS / 2 {
        board.drop_puyo(fixed::COLS - 1, PuyoColor::Red);
    }
    board.set(fixed::COLS - 1, fixed::ROWS - 1, PuyoColor::Green);
    let placements = fixed_placement::enumerate_placements(&board, &piece);
    assert!(fixed_has(&placements, fixed::COLS - 1, Orientation::North));
}

#[test]
fn placement_test_south_blocked_when_both_neighbors_high() {
    let c = cfg();
    let cols = c.cols;
    let rows = c.rows;
    let spawn_col = c.spawn_col();
    let mut board = Board::default();
    for _ in 0..rows - 1 {
        board.drop_puyo(0, PuyoColor::Red);
        board.drop_puyo(cols - 1, PuyoColor::Blue);
    }
    let piece = Piece::new(PuyoColor::Red, PuyoColor::Blue);
    let placements = enumerate_placements(&board, &piece);
    assert!(!has(&placements, spawn_col, Orientation::South));
    assert!(has(&placements, spawn_col, Orientation::North));

    let mut board = fixed::Board::new();
    for _ in 0..fixed::ROWS - 1 {
        board.drop_puyo(0, PuyoColor::Red);
        board.drop_puyo(fixed::COLS - 1, PuyoColor::Blue);
    }
    let placements = fixed_placement::enumerate_placements(&board, &piece);
    assert!(!fixed_has(&placements, fixed::SPAWN_COL, Orientation::South));
    assert!(fixed_has(&placements, fixed::SPAWN_COL, Orientation::North));
}

#[test]
fn placement_test_south_allowed_when_one_neighbor_high() {
    let c = cfg();
    let rows = c.rows;
    let spawn_col = c.spawn_col();
    let mut board = Board::default();
    for _ in 0..rows - 1 {
        board.drop_puyo(0, PuyoColor::Red);
    }
    let piece = Piece::new(PuyoColor::Red, PuyoColor::Blue);
    let placements = enumerate_placements(&board, &piece);
    assert!(has(&placements, spawn_col, Orientation::South));

    let mut board = fixed::Board::new();
    for _ in 0..fixed::ROWS - 1 {
        board.drop_puyo(0, PuyoColor::Red);
    }
    let placements = fixed_placement::enumerate_placements(&board, &piece);
    assert!(fixed_has(&placements, fixed::SPAWN_COL, Orientation::South));
}

#[test]
fn placement_test_south_blocked_at_boundary_col0() {
    let c = cfg();
    let rows = c.rows;
    let spawn_col = c.spawn_col();
    let mut board = Board::default();
    for _ in 0..rows - 1 {
        board.drop_puyo(spawn_col, PuyoColor::Red);
    }
    let piece = Piece::new(PuyoColor::Red, PuyoColor::Blue);
    let placements = enumerate_placements(&board, &piece);
    assert!(!has(&placements, 0, Orientation::South));

    let mut board = fixed::Board::new();
    for _ in 0..fixed::ROWS - 1 {
        board.drop_puyo(fixed::SPAWN_COL, PuyoColor::Red);
    }
    let placements = fixed_placement::enumerate_placements(&board, &piece);
    assert!(!fixed_has(&placements, 0, Orientation::South));
}

#[test]
fn placement_test_east_west_blocked_by_isolated_top_row_satellite() {
    let c = cfg();
    let cols = c.cols;
    let rows = c.rows;
    let spawn_col = c.spawn_col();
    let mut board = Board::default();
    for _ in 0..rows - 1 {
        board.drop_puyo(cols - 1, PuyoColor::Red);
    }
    board.set(cols - 1, rows - 1, PuyoColor::Green);
    let piece = Piece::new(PuyoColor::Red, PuyoColor::Blue);
    let placements = enumerate_placements(&board, &piece);
    assert!(!has(&placements, spawn_col, Orientation::East));

    let mut board = fixed::Board::new();
    for _ in 0..fixed::ROWS - 1 {
        board.drop_puyo(fixed::COLS - 1, PuyoColor::Red);
    }
    board.set(fixed::COLS - 1, fixed::ROWS - 1, PuyoColor::Green);
    let placements = fixed_placement::enumerate_placements(&board, &piece);
    assert!(!fixed_has(&placements, fixed::SPAWN_COL, Orientation::East));
}

#[test]
fn placement_test_placement_to_index_roundtrip() {
    let c = cfg();
    let cols = c.cols;
    for col in 0..cols {
        for ori in [Orientation::North, Orientation::East, Orientation::South, Orientation::West] {
            let p = Placement::new(col, ori);
            let idx = placement_to_index(&p);
            let p2 = index_to_placement(idx, cols);
            assert_eq!(p, p2);
        }
    }
    for col in 0..fixed::COLS {
        for ori in [Orientation::North, Orientation::East, Orientation::South, Orientation::West] {
            let p = FixedPlacement::new(col, ori);
            let idx = fixed_placement::placement_to_index(&p);
            let p2 = fixed_placement::index_to_placement(idx);
            assert_eq!(p, p2);
        }
    }
}

#[test]
fn placement_test_compute_valid_mask_empty_board() {
    let c = cfg();
    let cols = c.cols;
    let board = Board::default();
    let piece = Piece::new(PuyoColor::Red, PuyoColor::Blue);
    let mask = compute_valid_mask(&board, &piece);
    let count = mask.iter().filter(|&&v| v).count();
    let expected = cols * 2 + (cols - 1) * 2;
    assert_eq!(count, expected);

    let board = fixed::Board::new();
    let mask = fixed_placement::compute_valid_mask(&board, &piece);
    let count = mask.iter().filter(|&&v| v).count();
    let expected = fixed::COLS * 2 + (fixed::COLS - 1) * 2;
    assert_eq!(count, expected);
}

#[test]
fn placement_test_compute_valid_mask_same_color() {
    let c = cfg();
    let cols = c.cols;
    let board = Board::default();
    let piece = Piece::new(PuyoColor::Red, PuyoColor::Red);
    let mask = compute_valid_mask(&board, &piece);
    let count = mask.iter().filter(|&&v| v).count();
    let expected = cols + (cols - 1);
    assert_eq!(count, expected);

    let board = fixed::Board::new();
    let mask = fixed_placement::compute_valid_mask(&board, &piece);
    let count = mask.iter().filter(|&&v| v).count();
    let expected = fixed::COLS + (fixed::COLS - 1);
    assert_eq!(count, expected);
}
