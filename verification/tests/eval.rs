use puyo::board::{Board, PuyoColor};
use puyo::classic::board as fixed;
use puyo::classic::eval::SimulationEvaluator as FixedEvaluator;
use puyo::config::GameConfig;
use puyo::eval::SimulationEvaluator;

/// The evaluator's estimate: the mean of the virtual placement scores, or the
/// game-over score when there is none.
fn mean(terms: (i128, u128)) -> f64 {
    let (sum, count) = terms;
    if count == 0 {
        return -1000000.0;
    }
    sum as f64 / count as f64
}

fn expected(board: &Board) -> f64 {
    mean(SimulationEvaluator.expected_score_terms(board))
}

fn fixed_expected(board: &fixed::Board) -> f64 {
    mean(FixedEvaluator.expected_score_terms(board))
}

fn cfg() -> GameConfig {
    GameConfig::default()
}

#[test]
fn eval_test_simulate_expected_score_empty_board() {
    let board = Board::new(&cfg());
    let score = expected(&board);
    assert!(score.abs() < 1.0, "empty board should score near 0: got {score}");

    let board = fixed::Board::new();
    let score = fixed_expected(&board);
    assert!(score.abs() < 1.0, "empty board should score near 0: got {score}");
}

#[test]
fn eval_test_simulate_expected_score_near_chain() {
    let mut board = Board::new(&cfg());
    board.drop_puyo(0, PuyoColor::Red);
    board.drop_puyo(0, PuyoColor::Red);
    board.drop_puyo(0, PuyoColor::Red);
    let score = expected(&board);
    assert!(score > 0.0, "a board close to a chain should score above 0: got {score}");

    let mut board = fixed::Board::new();
    board.drop_puyo(0, PuyoColor::Red);
    board.drop_puyo(0, PuyoColor::Red);
    board.drop_puyo(0, PuyoColor::Red);
    let score = fixed_expected(&board);
    assert!(score > 0.0, "a board close to a chain should score above 0: got {score}");
}

#[test]
fn eval_test_simulate_expected_score_more_potential_is_higher() {
    let mut board1 = Board::new(&cfg());
    board1.drop_puyo(0, PuyoColor::Red);
    board1.drop_puyo(0, PuyoColor::Red);
    board1.drop_puyo(0, PuyoColor::Red);
    let mut board2 = Board::new(&cfg());
    board2.drop_puyo(0, PuyoColor::Red);
    board2.drop_puyo(0, PuyoColor::Red);
    board2.drop_puyo(0, PuyoColor::Red);
    board2.drop_puyo(1, PuyoColor::Blue);
    board2.drop_puyo(1, PuyoColor::Blue);
    board2.drop_puyo(1, PuyoColor::Blue);
    let s1 = expected(&board1);
    let s2 = expected(&board2);
    assert!(s2 > s1, "more chain potential should score higher: s1={s1}, s2={s2}");

    let mut board1 = fixed::Board::new();
    board1.drop_puyo(0, PuyoColor::Red);
    board1.drop_puyo(0, PuyoColor::Red);
    board1.drop_puyo(0, PuyoColor::Red);
    let mut board2 = fixed::Board::new();
    board2.drop_puyo(0, PuyoColor::Red);
    board2.drop_puyo(0, PuyoColor::Red);
    board2.drop_puyo(0, PuyoColor::Red);
    board2.drop_puyo(1, PuyoColor::Blue);
    board2.drop_puyo(1, PuyoColor::Blue);
    board2.drop_puyo(1, PuyoColor::Blue);
    let s1 = fixed_expected(&board1);
    let s2 = fixed_expected(&board2);
    assert!(s2 > s1, "more chain potential should score higher: s1={s1}, s2={s2}");
}

#[test]
fn eval_test_simulate_expected_score_game_over_penalty() {
    let c = cfg();
    let mut board = Board::new(&c);
    for col in 0..c.cols {
        for i in 0..c.visible_rows() {
            let color = if (col + i) % 2 == 0 { PuyoColor::Red } else { PuyoColor::Blue };
            board.drop_puyo(col, color);
        }
    }
    let score = expected(&board);
    assert!(score < -1000.0, "a nearly full board should score far below 0: got {score}");

    let mut board = fixed::Board::new();
    for col in 0..fixed::COLS {
        for i in 0..fixed::VISIBLE_ROWS {
            let color = if (col + i) % 2 == 0 { PuyoColor::Red } else { PuyoColor::Blue };
            board.drop_puyo(col, color);
        }
    }
    let score = fixed_expected(&board);
    assert!(score < -1000.0, "a nearly full board should score far below 0: got {score}");
}

#[test]
fn eval_test_simulate_expected_score_deterministic() {
    let mut board = Board::new(&cfg());
    board.drop_puyo(2, PuyoColor::Green);
    board.drop_puyo(2, PuyoColor::Green);
    board.drop_puyo(1, PuyoColor::Blue);
    let s1 = expected(&board);
    let s2 = expected(&board);
    assert_eq!(s1, s2, "the same board should get the same score");

    let mut board = fixed::Board::new();
    board.drop_puyo(2, PuyoColor::Green);
    board.drop_puyo(2, PuyoColor::Green);
    board.drop_puyo(1, PuyoColor::Blue);
    let s1 = fixed_expected(&board);
    let s2 = fixed_expected(&board);
    assert_eq!(s1, s2, "the same board should get the same score");
}
